use std::cell::RefCell;
use std::rc::Rc;

use shigunaru::{create_effect, Registry, Signal};

type Callback = Box<dyn Fn()>;

#[test]
fn it_works() {
    let mut reg: Registry<i32, Callback> = Registry::new();
    let signal = Signal::new(&mut reg, 10);
    assert_eq!(signal.get(&mut reg), 10);
}

#[test]
fn test_basic_signal() {
    let mut reg: Registry<i32, Callback> = Registry::new();
    let signal = Signal::new(&mut reg, 10);
    assert_eq!(signal.get(&mut reg), 10);

    signal.set(&mut reg, 20);
    assert_eq!(signal.get(&mut reg), 20);
}

#[test]
fn test_signal_subscription() {
    let mut reg: Registry<i32, Callback> = Registry::new();
    let signal = Signal::new(&mut reg, 1);
    let counter = Rc::new(RefCell::new(0));

    let counter_clone = counter.clone();
    signal.subscribe(
        &mut reg,
        Box::new(move || {
            *counter_clone.borrow_mut() += 1;
        }),
    );

    // Setting an unchanged value still notifies.
    signal.set(&mut reg, 1);
    assert_eq!(*counter.borrow(), 1);

    signal.set(&mut reg, 2);
    assert_eq!(*counter.borrow(), 2);

    signal.notify(&mut reg);
    assert_eq!(*counter.borrow(), 3);
}

#[test]
fn test_signal_cloning() {
    let mut reg: Registry<i32, Callback> = Registry::new();
    let signal1 = Signal::new(&mut reg, 10);
    let signal2 = signal1.clone();

    signal1.set(&mut reg, 20);
    assert_eq!(signal2.get(&mut reg), 20);

    signal2.set(&mut reg, 30);
    assert_eq!(signal1.get(&mut reg), 30);
}

#[test]
fn effect_fires_once_per_set_before_set_returns() {
    let mut reg: Registry<i32, Callback> = Registry::new();
    let signal = Signal::new(&mut reg, 0);
    let count = Rc::new(RefCell::new(0));
    let count_clone = count.clone();
    create_effect(
        &mut reg,
        Box::new(move || {
            *count_clone.borrow_mut() += 1;
        }),
        &signal,
    );
    for (i, v) in [1, 2, 3].iter().enumerate() {
        signal.set(&mut reg, *v);
        assert_eq!(*count.borrow(), i + 1);
    }
    assert_eq!(*count.borrow(), 3);
}

#[test]
fn subscribers_run_in_subscription_order() {
    let mut reg: Registry<i32, Callback> = Registry::new();
    let signal = Signal::new(&mut reg, 0);
    let log: Rc<RefCell<Vec<u8>>> = Rc::new(RefCell::new(Vec::new()));
    for tag in [1u8, 2, 3] {
        let log_clone = log.clone();
        signal.subscribe(&mut reg, Box::new(move || log_clone.borrow_mut().push(tag)));
    }
    signal.set(&mut reg, 5);
    assert_eq!(*log.borrow(), vec![1, 2, 3]);
    signal.set(&mut reg, 6);
    assert_eq!(*log.borrow(), vec![1, 2, 3, 1, 2, 3]);
}

#[test]
fn effect_watches_only_its_signal() {
    let mut reg: Registry<i32, Callback> = Registry::new();
    let a = Signal::new(&mut reg, 0);
    let b = Signal::new(&mut reg, 0);
    let count = Rc::new(RefCell::new(0));
    let count_clone = count.clone();
    create_effect(&mut reg, Box::new(move || *count_clone.borrow_mut() += 1), &a);
    b.set(&mut reg, 4);
    assert_eq!(*count.borrow(), 0);
    a.set(&mut reg, 4);
    assert_eq!(*count.borrow(), 1);
}

#[test]
fn signal_ids_are_distinct_and_increasing() {
    let mut reg: Registry<i32, Callback> = Registry::new();
    let mut ids: Vec<usize> = Vec::new();
    for v in 0..50 {
        let s = Signal::new(&mut reg, v);
        ids.push(s.id());
    }
    for w in ids.windows(2) {
        assert!(w[0] < w[1]);
    }
    let mut sorted = ids.clone();
    sorted.dedup();
    assert_eq!(sorted.len(), 50);
}

#[test]
fn next_signal_id_advances() {
    let mut reg: Registry<i32, Callback> = Registry::new();
    let first = Signal::new(&mut reg, 7);
    let a = shigunaru::registry::get_next_signal_id(&mut reg);
    let b = shigunaru::registry::get_next_signal_id(&mut reg);
    assert_eq!(a, first.id() + 1);
    assert_eq!(b, a + 1);
    let s = Signal::new(&mut reg, 9);
    assert_eq!(s.id(), b + 1);
    assert_eq!(s.get(&mut reg), 9);
    assert_eq!(first.get(&mut reg), 7);
}
