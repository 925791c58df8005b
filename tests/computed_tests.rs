use std::cell::{Cell, RefCell};
use std::rc::Rc;

use shigunaru::{create_computed, create_effect, Registry, Signal};

type Callback = Box<dyn Fn()>;
type Scope = Registry<i32, Callback>;

#[test]
fn test_computed_signal() {
    let mut reg: Scope = Registry::new();
    let counter = Signal::new(&mut reg, 5);

    let counter_for_computed = counter.clone();
    let mut doubled = create_computed(&mut reg, move |mut r: Scope| {
        let counter_value = counter_for_computed.get(&mut r);
        (counter_value * 2, r)
    });

    assert_eq!(doubled.value(&mut reg), 10);

    counter.set(&mut reg, 7);
    assert_eq!(doubled.value(&mut reg), 14);

    counter.set(&mut reg, 15);
    assert_eq!(doubled.value(&mut reg), 30);
}

#[test]
fn test_computed_with_dependencies() {
    let mut reg: Scope = Registry::new();
    let a = Signal::new(&mut reg, 1);
    let b = Signal::new(&mut reg, 2);

    let a_for_computed = a.clone();
    let b_for_computed = b.clone();
    let mut sum = create_computed(&mut reg, move |mut r: Scope| {
        let a_val = a_for_computed.get(&mut r);
        let b_val = b_for_computed.get(&mut r);
        (a_val + b_val, r)
    });

    assert_eq!(sum.value(&mut reg), 3);

    a.set(&mut reg, 5);
    assert_eq!(sum.value(&mut reg), 7);

    b.set(&mut reg, 10);
    assert_eq!(sum.value(&mut reg), 15);

    a.set(&mut reg, 20);
    b.set(&mut reg, 30);
    assert_eq!(sum.value(&mut reg), 50);
}

#[test]
fn test_computed_caching() {
    let mut reg: Scope = Registry::new();
    let computation_count = Rc::new(Cell::new(0));
    let signal = Signal::new(&mut reg, 1);

    let signal_for_computed = signal.clone();
    let computation_count_clone = computation_count.clone();
    let mut computed = create_computed(&mut reg, move |mut r: Scope| {
        computation_count_clone.set(computation_count_clone.get() + 1);
        let v = signal_for_computed.get(&mut r);
        (v * 2, r)
    });

    assert_eq!(computed.value(&mut reg), 2);
    assert_eq!(computation_count.get(), 1);

    assert_eq!(computed.value(&mut reg), 2);
    assert_eq!(computation_count.get(), 1);

    signal.set(&mut reg, 10);
    assert_eq!(computed.value(&mut reg), 20);
    assert_eq!(computation_count.get(), 2);
}

#[test]
fn test_nested_computed() {
    let mut reg: Scope = Registry::new();
    let base = Signal::new(&mut reg, 1);

    let base_for_doubled = base.clone();
    let mut doubled = create_computed(&mut reg, move |mut r: Scope| {
        let v = base_for_doubled.get(&mut r);
        (v * 2, r)
    });

    let doubled_for_nested = doubled.signal().clone();
    let mut nested = create_computed(&mut reg, move |mut r: Scope| {
        let v = doubled_for_nested.get(&mut r);
        (v + 10, r)
    });

    assert_eq!(doubled.value(&mut reg), 2);
    assert_eq!(nested.value(&mut reg), 12);

    base.set(&mut reg, 5);
    assert_eq!(doubled.value(&mut reg), 10);
    assert_eq!(nested.value(&mut reg), 20);
}

#[test]
fn computed_follows_every_write() {
    let mut reg: Scope = Registry::new();
    let x = Signal::new(&mut reg, 0);
    let y = Signal::new(&mut reg, 100);
    let mut f = create_computed(&mut reg, move |mut r: Scope| {
        let a = x.get(&mut r);
        let b = y.get(&mut r);
        (a * 3 - b, r)
    });
    let writes = [(0, 4), (1, 7), (0, -2), (1, 0), (0, 9), (0, 9)];
    let mut xv = 0;
    let mut yv = 100;
    assert_eq!(f.value(&mut reg), xv * 3 - yv);
    for (which, v) in writes.iter() {
        if *which == 0 {
            x.set(&mut reg, *v);
            xv = *v;
        } else {
            y.set(&mut reg, *v);
            yv = *v;
        }
        assert_eq!(f.value(&mut reg), xv * 3 - yv);
    }
}

#[test]
fn unrelated_write_keeps_cache() {
    let mut reg: Scope = Registry::new();
    let count = Rc::new(Cell::new(0));
    let a = Signal::new(&mut reg, 3);
    let other = Signal::new(&mut reg, 0);
    let count_clone = count.clone();
    let mut c = create_computed(&mut reg, move |mut r: Scope| {
        count_clone.set(count_clone.get() + 1);
        let v = a.get(&mut r);
        (v + 1, r)
    });
    assert_eq!(count.get(), 1);
    other.set(&mut reg, 8);
    assert_eq!(c.value(&mut reg), 4);
    assert_eq!(count.get(), 1);
}

#[test]
fn dependencies_follow_latest_evaluation() {
    let mut reg: Scope = Registry::new();
    let flag = Signal::new(&mut reg, 1);
    let left = Signal::new(&mut reg, 10);
    let right = Signal::new(&mut reg, 20);
    let mut pick = create_computed(&mut reg, move |mut r: Scope| {
        if flag.get(&mut r) != 0 {
            let v = left.get(&mut r);
            (v, r)
        } else {
            let v = right.get(&mut r);
            (v, r)
        }
    });
    assert_eq!(pick.value(&mut reg), 10);
    let state = &reg.states[0];
    assert_eq!(state.dependencies, vec![flag.id(), left.id()]);
    flag.set(&mut reg, 0);
    assert_eq!(pick.value(&mut reg), 20);
    assert_eq!(reg.states[0].dependencies, vec![flag.id(), right.id()]);
    assert!(!reg.states[0].dirty);
}

#[test]
fn recompute_does_not_notify_published_signal() {
    let mut reg: Scope = Registry::new();
    let base = Signal::new(&mut reg, 1);
    let mut doubled = create_computed(&mut reg, move |mut r: Scope| {
        let v = base.get(&mut r);
        (v * 2, r)
    });
    let fired = Rc::new(RefCell::new(0));
    let fired_clone = fired.clone();
    let published = doubled.signal().clone();
    create_effect(&mut reg, Box::new(move || *fired_clone.borrow_mut() += 1), &published);

    base.set(&mut reg, 4);
    assert_eq!(doubled.value(&mut reg), 8);
    assert_eq!(*fired.borrow(), 0);
    assert_eq!(published.get(&mut reg), 8);

    published.notify(&mut reg);
    assert_eq!(*fired.borrow(), 1);
    published.set(&mut reg, 8);
    assert_eq!(*fired.borrow(), 2);
}

#[test]
fn invalidation_is_one_hop() {
    let mut reg: Scope = Registry::new();
    let base = Signal::new(&mut reg, 1);
    let mut doubled = create_computed(&mut reg, move |mut r: Scope| {
        let v = base.get(&mut r);
        (v * 2, r)
    });
    let published = doubled.signal().clone();
    let mut plus = create_computed(&mut reg, move |mut r: Scope| {
        let v = published.get(&mut r);
        (v + 1, r)
    });
    base.set(&mut reg, 3);
    assert!(reg.states[0].dirty);
    assert!(!reg.states[1].dirty);
    // The downstream computed still holds its cached value until the
    // upstream one is read again and republishes.
    assert_eq!(plus.value(&mut reg), 3);
    assert_eq!(doubled.value(&mut reg), 6);
    assert!(reg.states[1].dirty);
    assert_eq!(plus.value(&mut reg), 7);
}

#[test]
fn repeated_evaluations_register_once() {
    let mut reg: Scope = Registry::new();
    let s = Signal::new(&mut reg, 1);
    let mut c = create_computed(&mut reg, move |mut r: Scope| {
        let v = s.get(&mut r);
        (v + 1, r)
    });
    for v in 2..10 {
        s.set(&mut reg, v);
        assert_eq!(c.value(&mut reg), v + 1);
    }
    assert_eq!(reg.dependents[s.id()], vec![0]);
}
