use vstd::prelude::*;

use crate::registry::{
    get_next_signal_id, mark_dependents_dirty, register_dependency, Registry,
};

verus! {

/// What a write of `v` to signal `s` does to scope `reg`, giving `after`:
/// the value is replaced, every computed state registered against `s` is
/// marked dirty (and so is every one that read `s` in its latest
/// evaluation), dependency records are kept, and each subscriber of `s`
/// is called once, in subscription order.
pub open spec fn write_outcome<T, E>(reg: Registry<T, E>, s: Signal, v: T, after: Registry<T, E>) -> bool {
    &&& after.values@ == reg.values@.update(s@ as int, Some(v))
    &&& after.states@.len() == reg.states@.len()
    &&& forall|c: int|
        #![trigger after.states@[c]]
        0 <= c < reg.states@.len() ==> after.states@[c].dirty == (reg.states@[c].dirty
            || reg.dependents_of(s@ as int).contains(c as usize))
            && after.states@[c].dependencies@ == reg.states@[c].dependencies@
    &&& forall|c: int|
        #![trigger after.states@[c]]
        0 <= c < reg.states@.len() && reg.deps(c).contains(s@) ==> after.states@[c].dirty
    &&& after.subscribers@ == reg.subscribers@
    &&& after.dependents@ == reg.dependents@
    &&& after.current == reg.current
    &&& after.notified@ == reg.notified@ + calls_of(s@, reg.subscribers@[s@ as int]@.len())
}

/// The log entries of one notification of signal `s` with `n` subscribers:
/// subscriber `j` of `s` is called, for `j` from `0` to `n - 1`.
pub open spec fn calls_of(s: usize, n: nat) -> Seq<(usize, usize)> {
    Seq::new(n, |j: int| (s, j as usize))
}

/// Handle to a signal of a [`Registry`]: an observable value cell. Copies of
/// the handle name the same cell.
#[derive(Clone, Copy, PartialEq, Eq, Debug)]
pub struct Signal {
    id: usize,
}

impl Signal {
    pub closed spec fn view(&self) -> usize {
        self.id
    }

    /// Creates a signal holding `value`, with the id [`get_next_signal_id`]
    /// hands out and no subscribers.
    pub fn new<T, E: Fn()>(reg: &mut Registry<T, E>, value: T) -> (s: Signal)
        requires
            old(reg).wf(),
        ensures
            final(reg).wf(),
            s@ == old(reg).num_signals(),
            forall|t: Signal| old(reg).valid_signal(t@) ==> t@ < s@,
            final(reg).values@ == old(reg).values@.push(Some(value)),
            final(reg).subscribers@.len() == old(reg).subscribers@.len() + 1,
            forall|i: int|
                #![trigger final(reg).subscribers@[i]]
                0 <= i < old(reg).subscribers@.len() ==> final(reg).subscribers@[i]
                    == old(reg).subscribers@[i],
            final(reg).subscribers@[s@ as int]@.len() == 0,
            final(reg).dependents_view() == old(reg).dependents_view().push(Seq::empty()),
            final(reg).states@ == old(reg).states@,
            final(reg).current == old(reg).current,
            final(reg).notified@ == old(reg).notified@,
    {
        let id = get_next_signal_id(reg);
        reg.values.set(id, Some(value));
        Signal { id }
    }

    /// Stable identity of the signal: the key under which computed states
    /// register against it.
    pub fn id(&self) -> (r: usize)
        ensures
            r == self@,
    {
        self.id
    }

    /// Reads the current value. While a computation is installed the read is
    /// recorded as one of its dependencies (and that computation is dirty).
    pub fn get<T: Copy, E: Fn()>(&self, reg: &mut Registry<T, E>) -> (r: T)
        requires
            old(reg).wf(),
            old(reg).valid_signal(self@),
        ensures
            final(reg).wf(),
            old(reg).values@[self@ as int] == Some(r),
            final(reg).states@.len() == old(reg).states@.len(),
        forall|c: int|
            #![trigger final(reg).states@[c]]
            0 <= c < old(reg).states@.len() && old(reg).current != Some(c as usize) ==> final(reg).states@[c] == old(reg).states@[c],
            forall|c: int|
                #![trigger final(reg).states@[c]]
                0 <= c < old(reg).states@.len() ==> final(reg).states@[c].dirty == (old(reg).states@[c].dirty
                    || old(reg).current == Some(c as usize)),
            forall|c: int|
                #![trigger final(reg).states@[c]]
                0 <= c < old(reg).states@.len() ==> final(reg).states@[c].dependencies@.to_set()
                    == if old(reg).current == Some(c as usize) {
                    old(reg).states@[c].dependencies@.to_set().insert(self@)
                } else {
                    old(reg).states@[c].dependencies@.to_set()
                },
            final(reg).values@ == old(reg).values@,
            final(reg).subscribers@ == old(reg).subscribers@,
            final(reg).dependents@ == old(reg).dependents@,
            final(reg).current == old(reg).current,
            final(reg).notified@ == old(reg).notified@,
    {
        register_dependency(reg, self.id);
        reg.values[self.id].unwrap()
    }

    /// Overwrites the value (even with an equal one), marks every computed
    /// state registered against this signal dirty, then calls every
    /// subscriber in subscription order before returning.
    pub fn set<T, E: Fn()>(&self, reg: &mut Registry<T, E>, new_value: T)
        requires
            old(reg).wf(),
            old(reg).valid_signal(self@),
        ensures
            final(reg).wf(),
            write_outcome(*old(reg), *self, new_value, *final(reg)),
            forall|j: int|
                0 <= j < old(reg).subscribers@[self@ as int]@.len() ==> #[trigger] old(reg).subscribers@[self@ as int]@[j].ensures((), ()),
    {
        self.set_silent(reg, new_value);
        let ghost mid = *reg;
        mark_dependents_dirty(reg, self.id);
        self.notify(reg);
        proof {
            assert forall|c: int|
                #![trigger reg.states@[c]]
                0 <= c < mid.states@.len() && mid.deps(c).contains(self@)
                    implies reg.states@[c].dirty by {
                if !mid.states@[c].dirty {
                    let k = choose|k: int|
                        0 <= k < mid.deps(c).len() && mid.deps(c)[k] == self@;
                    assert(mid.states@[c].dependencies@[k] == self@);
                }
            }
        }
    }

    /// Appends `callback` to the subscribers. Nothing is deduplicated.
    pub fn subscribe<T, E: Fn()>(&self, reg: &mut Registry<T, E>, callback: E)
        requires
            old(reg).wf(),
            old(reg).valid_signal(self@),
            callback.requires(()),
        ensures
            final(reg).wf(),
            final(reg).subscribers@.len() == old(reg).subscribers@.len(),
            forall|i: int|
                #![trigger final(reg).subscribers@[i]]
                0 <= i < old(reg).subscribers@.len() && i != self@ ==> final(reg).subscribers@[i] == old(reg).subscribers@[i],
            final(reg).subscribers@[self@ as int]@ == old(reg).subscribers@[self@ as int]@.push(
                callback,
            ),
            final(reg).values@ == old(reg).values@,
            final(reg).dependents@ == old(reg).dependents@,
            final(reg).states@ == old(reg).states@,
            final(reg).current == old(reg).current,
            final(reg).notified@ == old(reg).notified@,
    {
        let ghost pre = *reg;
        let mut list = Vec::new();
        std::mem::swap(&mut list, &mut reg.subscribers[self.id]);
        list.push(callback);
        reg.subscribers.set(self.id, list);
        proof {
            assert forall|s: int, j: int|
                #![trigger reg.subscribers@[s]@[j]]
                0 <= s < reg.subscribers@.len() && 0 <= j < reg.subscribers@[s]@.len()
                    implies reg.subscribers@[s]@[j].requires(()) by {
                if s != self@ as int {
                    assert(reg.subscribers@[s] == pre.subscribers@[s]);
                } else if j < pre.subscribers@[s]@.len() {
                    assert(reg.subscribers@[s]@[j] == pre.subscribers@[s]@[j]);
                }
            }
        }
    }

    /// Calls every subscriber, in subscription order.
    pub fn notify<T, E: Fn()>(&self, reg: &mut Registry<T, E>)
        requires
            old(reg).wf(),
            old(reg).valid_signal(self@),
        ensures
            final(reg).wf(),
            final(reg).values@ == old(reg).values@,
            final(reg).subscribers@ == old(reg).subscribers@,
            final(reg).dependents@ == old(reg).dependents@,
            final(reg).states@ == old(reg).states@,
            final(reg).current == old(reg).current,
            final(reg).notified@ == old(reg).notified@ + calls_of(
                self@,
                old(reg).subscribers@[self@ as int]@.len(),
            ),
            forall|j: int|
                0 <= j < old(reg).subscribers@[self@ as int]@.len() ==> #[trigger] old(reg).subscribers@[self@ as int]@[j].ensures((), ()),
    {
        let n = reg.subscribers[self.id].len();
        let mut k: usize = 0;
        while k < n
            invariant
                reg.wf(),
                reg.valid_signal(self@),
                0 <= k <= n,
                n == reg.subscribers@[self@ as int]@.len(),
                reg.subscribers@ == old(reg).subscribers@,
                reg.values@ == old(reg).values@,
                reg.dependents@ == old(reg).dependents@,
                reg.states@ == old(reg).states@,
                reg.current == old(reg).current,
                reg.notified@ == old(reg).notified@ + calls_of(self@, k as nat),
                forall|j: int|
                    0 <= j < k ==> #[trigger] reg.subscribers@[self@ as int]@[j].ensures((), ()),
            decreases n - k,
        {
            let callback = &reg.subscribers[self.id][k];
            callback();
            reg.notified = Ghost(reg.notified@.push((self.id, k)));
            proof {
                assert(old(reg).notified@ + calls_of(self@, (k + 1) as nat) =~= (old(reg).notified@
                    + calls_of(self@, k as nat)).push((self@, k)));
            }
            k = k + 1;
        }
    }

    /// Overwrites the value without marking dependents dirty and without
    /// notifying subscribers. Used by a computed signal to publish its result.
    pub(crate) fn set_silent<T, E: Fn()>(&self, reg: &mut Registry<T, E>, new_value: T)
        requires
            old(reg).wf(),
            old(reg).has_slot(self@),
        ensures
            final(reg).wf(),
            final(reg).values@ == old(reg).values@.update(self@ as int, Some(new_value)),
            final(reg).subscribers@ == old(reg).subscribers@,
            final(reg).dependents@ == old(reg).dependents@,
            final(reg).states@ == old(reg).states@,
            final(reg).current == old(reg).current,
            final(reg).notified@ == old(reg).notified@,
    {
        reg.values.set(self.id, Some(new_value));
    }
}

} // verus!
