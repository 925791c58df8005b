use shigunaru::registry::{
    mark_dependents_dirty, register_dependency, register_dependent, set_current_computed,
};
use shigunaru::{ComputedState, Registry, Signal};

type Callback = Box<dyn Fn()>;

#[test]
fn current_computation_is_swapped_and_restored() {
    let mut reg: Registry<i32, Callback> = Registry::new();
    reg.states.push(ComputedState::new());
    reg.states.push(ComputedState::new());
    assert_eq!(set_current_computed(&mut reg, Some(0)), None);
    assert_eq!(set_current_computed(&mut reg, Some(1)), Some(0));
    assert_eq!(set_current_computed(&mut reg, Some(0)), Some(1));
    assert_eq!(set_current_computed(&mut reg, None), Some(0));
    assert_eq!(reg.current, None);
}

#[test]
fn dependency_recorded_only_inside_evaluation() {
    let mut reg: Registry<i32, Callback> = Registry::new();
    let s = Signal::new(&mut reg, 1);
    reg.states.push(ComputedState::new());
    register_dependency(&mut reg, s.id());
    assert!(reg.states[0].dependencies.is_empty());
    set_current_computed(&mut reg, Some(0));
    register_dependency(&mut reg, s.id());
    register_dependency(&mut reg, s.id());
    assert_eq!(reg.states[0].dependencies, vec![s.id()]);
}

#[test]
fn read_under_clean_computation_is_recorded() {
    let mut reg: Registry<i32, Callback> = Registry::new();
    let s = Signal::new(&mut reg, 1);
    let mut st = ComputedState::new();
    st.dirty = false;
    reg.states.push(st);
    set_current_computed(&mut reg, Some(0));
    assert_eq!(s.get(&mut reg), 1);
    assert_eq!(reg.states[0].dependencies, vec![s.id()]);
    assert!(reg.states[0].dirty);
}

#[test]
fn dependents_are_marked_dirty() {
    let mut reg: Registry<i32, Callback> = Registry::new();
    let s = Signal::new(&mut reg, 1);
    let t = Signal::new(&mut reg, 2);
    for _ in 0..3 {
        let mut st = ComputedState::new();
        st.dirty = false;
        reg.states.push(st);
    }
    register_dependent(&mut reg, s.id(), 0);
    register_dependent(&mut reg, s.id(), 2);
    register_dependent(&mut reg, s.id(), 2);
    register_dependent(&mut reg, t.id(), 1);
    assert_eq!(reg.dependents[s.id()], vec![0, 2, 2]);
    mark_dependents_dirty(&mut reg, s.id());
    assert!(reg.states[0].dirty);
    assert!(!reg.states[1].dirty);
    assert!(reg.states[2].dirty);
}
