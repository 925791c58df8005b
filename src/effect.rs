use vstd::prelude::*;

use crate::registry::Registry;
use crate::signal::Signal;

verus! {

/// Binds `f` to `signal`: it runs on every notification of that signal.
/// Only the given signal is watched; nothing the callback reads is tracked,
/// and the binding cannot be removed.
pub fn create_effect<T, E: Fn()>(reg: &mut Registry<T, E>, f: E, signal: &Signal)
    requires
        old(reg).wf(),
        old(reg).valid_signal(signal@),
        f.requires(()),
    ensures
        final(reg).wf(),
        final(reg).subscribers@.len() == old(reg).subscribers@.len(),
        forall|i: int|
            #![trigger final(reg).subscribers@[i]]
            0 <= i < old(reg).subscribers@.len() && i != signal@ ==> final(reg).subscribers@[i]
                == old(reg).subscribers@[i],
        final(reg).subscribers@[signal@ as int]@ == old(reg).subscribers@[signal@ as int]@.push(f),
        final(reg).values@ == old(reg).values@,
        final(reg).dependents@ == old(reg).dependents@,
        final(reg).states@ == old(reg).states@,
        final(reg).current == old(reg).current,
        final(reg).notified@ == old(reg).notified@,
{
    signal.subscribe(reg, f);
}

} // verus!
