use vstd::prelude::*;

use crate::computed::ComputedState;

verus! {

/// The reactive scope: every signal's value and subscribers, the arena of
/// computed states, which computed states depend on which signal, and the
/// computation that is currently being evaluated.
///
/// A signal's id is its index in `values`, `subscribers` and `dependents`;
/// a computed state's id is its index in `states`. Ids are handed out in
/// increasing order and never reused.
pub struct Registry<T, E> {
    /// Current value of each signal; `None` for an id handed out by
    /// [`get_next_signal_id`] whose signal is not created yet.
    pub values: Vec<Option<T>>,
    /// Callbacks of each signal, in subscription order.
    pub subscribers: Vec<Vec<E>>,
    /// For each signal, the computed states registered as depending on it.
    /// Entries are appended and never removed.
    pub dependents: Vec<Vec<usize>>,
    /// Arena of computed states.
    pub states: Vec<ComputedState>,
    /// The computed state being evaluated, if any.
    pub current: Option<usize>,
    /// Every subscriber call, in order: the signal's id and the
    /// subscriber's position in its list.
    pub notified: Ghost<Seq<(usize, usize)>>,
}

impl<T, E> Registry<T, E> {
    pub open spec fn num_signals(&self) -> nat {
        self.values@.len()
    }

    pub open spec fn num_states(&self) -> nat {
        self.states@.len()
    }

    /// Dependencies recorded for computed state `c`.
    pub open spec fn deps(&self, c: int) -> Seq<usize> {
        self.states@[c].dependencies@
    }

    pub open spec fn is_dirty(&self, c: int) -> bool {
        self.states@[c].dirty
    }

    /// Computed states registered against signal `s`.
    pub open spec fn dependents_of(&self, s: int) -> Seq<usize> {
        self.dependents@[s]@
    }

    /// The dependents lists as sequences.
    pub open spec fn dependents_view(&self) -> Seq<Seq<usize>> {
        self.dependents@.map_values(|v: Vec<usize>| v@)
    }

    pub open spec fn valid_state(&self, c: usize) -> bool {
        c < self.states@.len()
    }

    /// The arena has a slot for id `s`.
    pub open spec fn has_slot(&self, s: usize) -> bool {
        s < self.values@.len()
    }

    /// Ids of the created signals.
    pub open spec fn valid_signals(&self) -> Set<usize> {
        Set::new(|s: usize| self.valid_signal(s))
    }

    /// `s` is the id of a created signal.
    pub open spec fn valid_signal(&self, s: usize) -> bool {
        s < self.values@.len() && self.values@[s as int] is Some
    }

    /// A computed state that is clean is registered against every signal it
    /// read, so that a write to any of them makes it dirty again.
    pub open spec fn clean_is_registered(&self) -> bool {
        forall|c: int, k: int|
            #![trigger self.states@[c].dependencies@[k]]
            0 <= c < self.states@.len() && !self.states@[c].dirty && 0 <= k
                < self.states@[c].dependencies@.len() ==> self.dependents@[self.states@[
                c].dependencies@[k] as int]@.contains(c as usize)
    }

    /// The scope's structural invariant, without the subscribers' callbacks.
    pub open spec fn shape_wf(&self) -> bool {
        &&& self.subscribers@.len() == self.values@.len()
        &&& self.dependents@.len() == self.values@.len()
        &&& forall|s: int, j: int|
            #![trigger self.dependents@[s]@[j]]
            0 <= s < self.dependents@.len() && 0 <= j < self.dependents@[s]@.len()
                ==> self.dependents@[s]@[j] < self.states@.len()
        &&& forall|c: int, k: int|
            #![trigger self.states@[c].dependencies@[k]]
            0 <= c < self.states@.len() && 0 <= k < self.states@[c].dependencies@.len()
                ==> self.states@[c].dependencies@[k] < self.values@.len()
        &&& forall|c: int|
            #![trigger self.states@[c]]
            0 <= c < self.states@.len() ==> self.states@[c].dependencies@.no_duplicates()
        &&& match self.current {
            Some(c) => c < self.states@.len(),
            None => true,
        }
        &&& self.clean_is_registered()
    }
}

impl<T, E: Fn()> Registry<T, E> {
    /// Well-formed: the structure is consistent and every subscriber can be
    /// called with no argument.
    pub open spec fn wf(&self) -> bool {
        &&& self.shape_wf()
        &&& forall|s: int, j: int|
            #![trigger self.subscribers@[s]@[j]]
            0 <= s < self.subscribers@.len() && 0 <= j < self.subscribers@[s]@.len()
                ==> self.subscribers@[s]@[j].requires(())
    }

    /// An empty scope.
    pub fn new() -> (r: Self)
        ensures
            r.wf(),
            r.num_signals() == 0,
            r.num_states() == 0,
            r.current.is_none(),
            r.notified@ == Seq::<(usize, usize)>::empty(),
    {
        Registry {
            values: Vec::new(),
            subscribers: Vec::new(),
            dependents: Vec::new(),
            states: Vec::new(),
            current: None,
            notified: Ghost(Seq::empty()),
        }
    }
}

/// Hands out the next signal id and advances the counter: the arena gains
/// a slot for that id, with no value yet, no subscribers and no dependents.
/// Ids increase by one on every call and are never handed out twice.
pub fn get_next_signal_id<T, E: Fn()>(reg: &mut Registry<T, E>) -> (r: usize)
    requires
        old(reg).wf(),
    ensures
        final(reg).wf(),
        r == old(reg).num_signals(),
        final(reg).values@ == old(reg).values@.push(None),
        final(reg).subscribers@.len() == old(reg).subscribers@.len() + 1,
        forall|i: int|
            #![trigger final(reg).subscribers@[i]]
            0 <= i < old(reg).subscribers@.len() ==> final(reg).subscribers@[i]
                == old(reg).subscribers@[i],
        final(reg).subscribers@[r as int]@.len() == 0,
        final(reg).dependents_view() == old(reg).dependents_view().push(Seq::empty()),
        final(reg).states@ == old(reg).states@,
        final(reg).current == old(reg).current,
        final(reg).notified@ == old(reg).notified@,
{
    let id = reg.values.len();
    let ghost pre = *reg;
    reg.values.push(None);
    reg.subscribers.push(Vec::new());
    reg.dependents.push(Vec::new());
    proof {
        assert(reg.dependents_view() =~= pre.dependents_view().push(Seq::empty()));
        assert forall|s: int, j: int|
            #![trigger reg.dependents@[s]@[j]]
            0 <= s < reg.dependents@.len() && 0 <= j < reg.dependents@[s]@.len()
                implies reg.dependents@[s]@[j] < reg.states@.len() by {
            assert(reg.dependents@[s] == pre.dependents@[s]);
        }
        assert forall|c: int, k: int|
            #![trigger reg.states@[c].dependencies@[k]]
            0 <= c < reg.states@.len() && !reg.states@[c].dirty && 0 <= k
                < reg.states@[c].dependencies@.len() implies reg.dependents@[reg.states@[
                c].dependencies@[k] as int]@.contains(c as usize) by {
            let d = reg.states@[c].dependencies@[k] as int;
            assert(reg.dependents@[d] == pre.dependents@[d]);
        }
        assert forall|s: int, j: int|
            #![trigger reg.subscribers@[s]@[j]]
            0 <= s < reg.subscribers@.len() && 0 <= j < reg.subscribers@[s]@.len()
                implies reg.subscribers@[s]@[j].requires(()) by {
            assert(reg.subscribers@[s] == pre.subscribers@[s]);
        }
    }
    id
}

/// Appends `state` to the computed states registered against `signal_id`.
/// Nothing is deduplicated and nothing is removed.
pub fn register_dependent<T, E: Fn()>(reg: &mut Registry<T, E>, signal_id: usize, state: usize)
    requires
        old(reg).wf(),
        old(reg).has_slot(signal_id),
        old(reg).valid_state(state),
    ensures
        final(reg).wf(),
        final(reg).dependents_view() == old(reg).dependents_view().update(
            signal_id as int,
            old(reg).dependents@[signal_id as int]@.push(state),
        ),
        final(reg).values@ == old(reg).values@,
        final(reg).subscribers@ == old(reg).subscribers@,
        final(reg).states@ == old(reg).states@,
        final(reg).current == old(reg).current,
        final(reg).notified@ == old(reg).notified@,
{
    let ghost pre = *reg;
    let mut list = Vec::new();
    std::mem::swap(&mut list, &mut reg.dependents[signal_id]);
    list.push(state);
    reg.dependents.set(signal_id, list);
    assert(reg.dependents_view() =~= pre.dependents_view().update(
        signal_id as int,
        pre.dependents@[signal_id as int]@.push(state),
    ));
    assert forall|c: int, k: int|
        #![trigger reg.states@[c].dependencies@[k]]
        0 <= c < reg.states@.len() && !reg.states@[c].dirty && 0 <= k
            < reg.states@[c].dependencies@.len() implies reg.dependents@[reg.states@[
            c].dependencies@[k] as int]@.contains(c as usize) by {
        let d = reg.states@[c].dependencies@[k] as int;
        assert(pre.dependents@[d]@.contains(c as usize));
        if d == signal_id {
            let j = choose|j: int|
                0 <= j < pre.dependents@[d]@.len() && pre.dependents@[d]@[j] == c as usize;
            assert(reg.dependents@[d]@[j] == c as usize);
        }
    }
}

/// Marks every computed state registered against `signal_id` dirty. One hop
/// only: states that depend on those states are left as they are.
pub fn mark_dependents_dirty<T, E: Fn()>(reg: &mut Registry<T, E>, signal_id: usize)
    requires
        old(reg).wf(),
        old(reg).has_slot(signal_id),
    ensures
        final(reg).wf(),
        final(reg).states@.len() == old(reg).states@.len(),
        forall|c: int|
            #![trigger final(reg).states@[c]]
            0 <= c < old(reg).states@.len() ==> final(reg).states@[c].dirty == (old(reg).states@[c].dirty || old(reg).dependents_of(signal_id as int).contains(c as usize))
                && final(reg).states@[c].dependencies@ == old(reg).states@[c].dependencies@,
        final(reg).values@ == old(reg).values@,
        final(reg).subscribers@ == old(reg).subscribers@,
        final(reg).dependents@ == old(reg).dependents@,
        final(reg).current == old(reg).current,
        final(reg).notified@ == old(reg).notified@,
{
    let ghost pre = *reg;
    let n = reg.dependents[signal_id].len();
    let ns = reg.states.len();
    let mut j: usize = 0;
    while j < n
        invariant
            reg.wf(),
            0 <= j <= n,
            n == pre.dependents@[signal_id as int]@.len(),
            ns == pre.states@.len(),
            pre.wf(),
            pre.has_slot(signal_id),
            reg.states@.len() == pre.states@.len(),
            forall|c: int|
                #![trigger reg.states@[c]]
                0 <= c < pre.states@.len() ==> reg.states@[c].dirty == (pre.states@[c].dirty
                    || pre.dependents@[signal_id as int]@.subrange(0, j as int).contains(
                    c as usize,
                )) && reg.states@[c].dependencies@ == pre.states@[c].dependencies@,
            reg.values@ == pre.values@,
            reg.subscribers@ == pre.subscribers@,
            reg.dependents@ == pre.dependents@,
            reg.current == pre.current,
            reg.notified@ == pre.notified@,
        decreases n - j,
    {
        let c = reg.dependents[signal_id][j];
        let ghost before = *reg;
        let mut st = ComputedState::new();
        std::mem::swap(&mut st, &mut reg.states[c]);
        st.dirty = true;
        reg.states.set(c, st);
        proof {
            let seen = pre.dependents@[signal_id as int]@;
            assert(reg.states@ == before.states@.update(c as int, reg.states@[c as int]));
            assert(reg.states@[c as int].dependencies@ == before.states@[c as int].dependencies@);
            assert forall|x: int|
                #![trigger reg.states@[x]]
                0 <= x < pre.states@.len() implies reg.states@[x].dirty == (pre.states@[x].dirty
                    || seen.subrange(0, j + 1).contains(x as usize))
                    && reg.states@[x].dependencies@ == pre.states@[x].dependencies@ by {
                assert(before.states@[x] == before.states@[x]);
                if x != c as int {
                    assert(reg.states@[x] == before.states@[x]);
                    if seen.subrange(0, j + 1).contains(x as usize) {
                        let i = choose|i: int|
                            0 <= i < j + 1 && #[trigger] seen.subrange(0, j + 1)[i] == x as usize;
                        assert(seen.subrange(0, j + 1)[i] == seen[i]);
                        assert(seen[j as int] == c);
                        assert(i != j);
                        assert(seen.subrange(0, j as int)[i] == seen[i]);
                    }
                    if seen.subrange(0, j as int).contains(x as usize) {
                        let i = choose|i: int|
                            0 <= i < j && #[trigger] seen.subrange(0, j as int)[i] == x as usize;
                        assert(seen.subrange(0, j + 1)[i] == seen[i]);
                    }
                } else {
                    assert(seen.subrange(0, j + 1)[j as int] == c);
                }
            }
            assert forall|x: int|
                #![trigger reg.states@[x]]
                0 <= x < reg.states@.len() implies reg.states@[x].dependencies@.no_duplicates() by {
                assert(reg.states@[x].dependencies@ == pre.states@[x].dependencies@);
            }
            assert forall|x: int, k: int|
                #![trigger reg.states@[x].dependencies@[k]]
                0 <= x < reg.states@.len() && 0 <= k < reg.states@[x].dependencies@.len()
                    implies reg.states@[x].dependencies@[k] < reg.values@.len() by {
                assert(reg.states@[x].dependencies@ == pre.states@[x].dependencies@);
            }
            assert forall|x: int, k: int|
                #![trigger reg.states@[x].dependencies@[k]]
                0 <= x < reg.states@.len() && !reg.states@[x].dirty && 0 <= k
                    < reg.states@[x].dependencies@.len() implies reg.dependents@[reg.states@[
                    x].dependencies@[k] as int]@.contains(x as usize) by {
                assert(reg.states@[x].dependencies@ == pre.states@[x].dependencies@);
                assert(pre.states@[x].dependencies@[k] == reg.states@[x].dependencies@[k]);
            }
        }
        j = j + 1;
    }
    let ghost all = pre.dependents@[signal_id as int]@;
    assert(all.subrange(0, n as int) =~= all);
}

/// Installs `state` as the computation being evaluated and returns the one
/// it replaces, which the caller restores when it is done.
pub fn set_current_computed<T, E: Fn()>(reg: &mut Registry<T, E>, state: Option<usize>) -> (r:
    Option<usize>)
    requires
        old(reg).wf(),
        match state {
            Some(c) => old(reg).valid_state(c),
            None => true,
        },
    ensures
        final(reg).wf(),
        r == old(reg).current,
        final(reg).current == state,
        final(reg).values@ == old(reg).values@,
        final(reg).subscribers@ == old(reg).subscribers@,
        final(reg).dependents@ == old(reg).dependents@,
        final(reg).states@ == old(reg).states@,
        final(reg).notified@ == old(reg).notified@,
{
    let prev = reg.current;
    reg.current = state;
    prev
}

/// Records that the computation being evaluated read `signal_id`, once
/// (set semantics). Reads outside an evaluation are not recorded. A record
/// that grows makes the current computation's cache stale, so it is marked
/// dirty (it already is during an evaluation).
pub fn register_dependency<T, E: Fn()>(reg: &mut Registry<T, E>, signal_id: usize)
    requires
        old(reg).wf(),
        old(reg).has_slot(signal_id),
    ensures
        final(reg).wf(),
        final(reg).states@.len() == old(reg).states@.len(),
        forall|c: int|
            #![trigger final(reg).states@[c]]
            0 <= c < old(reg).states@.len() && old(reg).current != Some(c as usize) ==> final(reg).states@[c] == old(reg).states@[c],
        forall|c: int|
            #![trigger final(reg).states@[c]]
            0 <= c < old(reg).states@.len() ==> final(reg).states@[c].dirty == (old(reg).states@[c].dirty
                || old(reg).current == Some(c as usize)),
        forall|c: int|
            #![trigger final(reg).states@[c]]
            0 <= c < old(reg).states@.len() ==> final(reg).states@[c].dependencies@.to_set()
                == if old(reg).current == Some(c as usize) {
                old(reg).states@[c].dependencies@.to_set().insert(signal_id)
            } else {
                old(reg).states@[c].dependencies@.to_set()
            },
        final(reg).values@ == old(reg).values@,
        final(reg).subscribers@ == old(reg).subscribers@,
        final(reg).dependents@ == old(reg).dependents@,
        final(reg).current == old(reg).current,
        final(reg).notified@ == old(reg).notified@,
{
    let ghost pre = *reg;
    let ns = reg.states.len();
    match reg.current {
        Some(c) => {
            {
                let mut st = ComputedState::new();
                std::mem::swap(&mut st, &mut reg.states[c]);
                st.dirty = true;
                if !vec_contains(&st.dependencies, signal_id) {
                    st.dependencies.push(signal_id);
                }
                reg.states.set(c, st);
                proof {
                    assert(reg.states@ == pre.states@.update(c as int, reg.states@[c as int]));
                    let old_deps = pre.states@[c as int].dependencies@;
                    let new_deps = reg.states@[c as int].dependencies@;
                    if !old_deps.contains(signal_id) {
                        assert(new_deps == old_deps.push(signal_id));
                        assert(new_deps.to_set() =~= old_deps.to_set().insert(signal_id)) by {
                            assert forall|x: usize| new_deps.to_set().contains(x)
                                implies old_deps.to_set().insert(signal_id).contains(x) by {
                                let i = choose|i: int| 0 <= i < new_deps.len() && new_deps[i] == x;
                                if i < old_deps.len() {
                                    assert(old_deps[i] == x);
                                }
                            }
                            assert forall|x: usize| old_deps.to_set().insert(signal_id).contains(x)
                                implies new_deps.to_set().contains(x) by {
                                if x == signal_id {
                                    assert(new_deps[old_deps.len() as int] == x);
                                } else {
                                    let i = choose|i: int|
                                        0 <= i < old_deps.len() && old_deps[i] == x;
                                    assert(new_deps[i] == x);
                                }
                            }
                        }
                        assert forall|i: int, j: int|
                            0 <= i < new_deps.len() && 0 <= j < new_deps.len() && i != j implies new_deps[i]
                            != new_deps[j] by {
                            if i < old_deps.len() && j < old_deps.len() {
                            } else if i < old_deps.len() {
                                assert(old_deps.contains(new_deps[i]));
                            } else if j < old_deps.len() {
                                assert(old_deps.contains(new_deps[j]));
                            }
                        }
                    } else {
                        assert(new_deps == old_deps);
                        assert(new_deps.to_set() =~= old_deps.to_set().insert(signal_id));
                    }
                    assert forall|x: int|
                        #![trigger reg.states@[x]]
                        0 <= x < reg.states@.len()
                            implies reg.states@[x].dependencies@.no_duplicates() by {
                        if x != c as int {
                            assert(reg.states@[x] == pre.states@[x]);
                        }
                    }
                    assert forall|x: int, k: int|
                        #![trigger reg.states@[x].dependencies@[k]]
                        0 <= x < reg.states@.len() && 0 <= k < reg.states@[x].dependencies@.len()
                            implies reg.states@[x].dependencies@[k] < reg.values@.len() by {
                        if x != c as int {
                            assert(reg.states@[x] == pre.states@[x]);
                        } else if k < old_deps.len() {
                            assert(new_deps[k] == old_deps[k]);
                        }
                    }
                    assert forall|x: int, k: int|
                        #![trigger reg.states@[x].dependencies@[k]]
                        0 <= x < reg.states@.len() && !reg.states@[x].dirty && 0 <= k
                            < reg.states@[x].dependencies@.len() implies reg.dependents@[reg.states@[
                            x].dependencies@[k] as int]@.contains(x as usize) by {
                        assert(x != c as int);
                        assert(reg.states@[x] == pre.states@[x]);
                    }
                    assert forall|x: int|
                        #![trigger reg.states@[x]]
                        0 <= x < pre.states@.len() implies reg.states@[x].dependencies@.to_set()
                            == if pre.current == Some(x as usize) {
                            pre.states@[x].dependencies@.to_set().insert(signal_id)
                        } else {
                            pre.states@[x].dependencies@.to_set()
                        } by {
                        if x != c as int {
                            assert(reg.states@[x] == pre.states@[x]);
                        } else {
                            assert(pre.current == Some(x as usize));
                            assert(new_deps.to_set() == old_deps.to_set().insert(signal_id));
                        }
                    }
                }
            }
        },
        None => {},
    }
}

/// Whether `v` holds `x`.
pub(crate) fn vec_contains(v: &Vec<usize>, x: usize) -> (r: bool)
    ensures
        r == v@.contains(x),
{
    let mut i: usize = 0;
    while i < v.len()
        invariant
            0 <= i <= v@.len(),
            forall|j: int| 0 <= j < i ==> v@[j] != x,
        decreases v@.len() - i,
    {
        if v[i] == x {
            return true;
        }
        i = i + 1;
    }
    false
}

} // verus!
