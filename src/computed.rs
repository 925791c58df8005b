use vstd::prelude::*;

use crate::registry::{
    mark_dependents_dirty, register_dependent, set_current_computed, vec_contains, Registry,
};
use crate::signal::{write_outcome, Signal};

verus! {

/// Bookkeeping of one computed signal, held in the scope's arena.
pub struct ComputedState {
    /// The cached value is stale and must be recomputed before the next read.
    pub dirty: bool,
    /// Ids of the signals read during the most recent evaluation (no repeats).
    pub dependencies: Vec<usize>,
}

impl Default for ComputedState {
    fn default() -> (r: ComputedState)
        ensures
            r.dirty,
            r.dependencies@.len() == 0,
    {
        ComputedState::new()
    }
}

impl ComputedState {
    /// A fresh state: dirty, with no dependencies.
    pub fn new() -> (r: ComputedState)
        ensures
            r.dirty,
            r.dependencies@.len() == 0,
    {
        ComputedState { dirty: true, dependencies: Vec::new() }
    }
}

/// What a compute function may do to the scope it is handed: it keeps the
/// scope well formed, removes no signal and no computed state, leaves the
/// subscribers of existing signals as they are, only appends to their
/// dependents lists, and calls no subscriber. A function that reads signals
/// with [`Signal::get`], or reads other computed signals, does this.
pub open spec fn evaluation_keeps<T, E: Fn()>(before: Registry<T, E>, after: Registry<T, E>) -> bool {
    &&& after.wf()
    &&& after.values@.len() >= before.values@.len()
    &&& forall|s: usize| before.valid_signal(s) ==> #[trigger] after.valid_signal(s)
    &&& after.states@.len() >= before.states@.len()
    &&& forall|s: int|
        #![trigger after.subscribers@[s]]
        0 <= s < before.subscribers@.len() ==> after.subscribers@[s] == before.subscribers@[s]
    &&& forall|s: int|
        #![trigger after.dependents@[s]]
        0 <= s < before.dependents@.len() ==> before.dependents@[s]@.is_prefix_of(
            after.dependents@[s]@,
        )
    &&& after.notified@ == before.notified@
}

/// `f` can be evaluated on every well-formed scope in which every signal
/// of `known` is created, and hands back a scope as [`evaluation_keeps`]
/// describes.
pub open spec fn compute_ok<T, E: Fn(), F: Fn(Registry<T, E>) -> (T, Registry<T, E>)>(
    f: F,
    known: Set<usize>,
) -> bool {
    &&& forall|r0: Registry<T, E>|
        r0.wf() && known.subset_of(r0.valid_signals()) ==> #[trigger] f.requires((r0,))
    &&& forall|r0: Registry<T, E>, out: (T, Registry<T, E>)|
        r0.wf() && #[trigger] f.ensures((r0,), out) ==> evaluation_keeps(r0, out.1)
}

/// A compute function that can run wherever the signals of `small` are
/// created can run wherever those of a larger set are.
proof fn lemma_compute_ok_widen<T, E: Fn(), F: Fn(Registry<T, E>) -> (T, Registry<T, E>)>(
    f: F,
    small: Set<usize>,
    large: Set<usize>,
)
    requires
        compute_ok(f, small),
        small.subset_of(large),
    ensures
        compute_ok(f, large),
{
    assert forall|r0: Registry<T, E>|
        r0.wf() && large.subset_of(r0.valid_signals()) implies #[trigger] f.requires((r0,)) by {
        assert(small.subset_of(r0.valid_signals()));
    }
}

/// `input` is the scope that an evaluation of computed state `c` hands to
/// the compute function when it starts from `reg`: the same signals with the
/// same values, `c` installed as the current computation, dirty, with its
/// dependency record cleared.
pub open spec fn evaluation_input<T, E>(input: Registry<T, E>, reg: Registry<T, E>, c: usize) -> bool {
    &&& input.values@ == reg.values@
    &&& input.subscribers@ == reg.subscribers@
    &&& input.dependents@ == reg.dependents@
    &&& input.notified@ == reg.notified@
    &&& input.current == Some(c)
    &&& input.states@.len() == reg.states@.len()
    &&& input.states@[c as int].dirty
    &&& input.states@[c as int].dependencies@.len() == 0
    &&& forall|x: int|
        #![trigger input.states@[x]]
        0 <= x < reg.states@.len() && x != c ==> input.states@[x] == reg.states@[x]
}

/// The outcome of evaluating computed state `c` of `reg` with `f`: `v` is
/// what `f` returned on the scope described by [`evaluation_input`], and
/// `result` is the scope it handed back, with the previous current
/// computation restored, `c` clean, and `c` registered against every
/// signal it read, once: a list that already holds `c` gets no new entry.
/// No subscriber is called.
pub open spec fn evaluated<T, E: Fn(), F: Fn(Registry<T, E>) -> (T, Registry<T, E>)>(
    f: F,
    reg: Registry<T, E>,
    c: usize,
    v: T,
    result: Registry<T, E>,
) -> bool {
    exists|input: Registry<T, E>, output: Registry<T, E>|
        #![trigger f.ensures((input,), (v, output))]
        {
            &&& evaluation_input(input, reg, c)
            &&& f.ensures((input,), (v, output))
            &&& evaluation_keeps(input, output)
            &&& result.values@ == output.values@
            &&& result.subscribers@ == output.subscribers@
            &&& result.notified@ == output.notified@
            &&& result.current == reg.current
            &&& result.states@.len() == output.states@.len()
            &&& forall|x: int|
                #![trigger result.states@[x]]
                0 <= x < output.states@.len() && x != c ==> result.states@[x] == output.states@[x]
            &&& !result.states@[c as int].dirty
            &&& result.states@[c as int].dependencies@ == output.states@[c as int].dependencies@
            &&& forall|k: int|
                #![trigger output.states@[c as int].dependencies@[k]]
                0 <= k < output.states@[c as int].dependencies@.len() ==> result.dependents@[
                output.states@[c as int].dependencies@[k] as int]@.contains(c)
            &&& result.dependents@.len() == output.dependents@.len()
            &&& forall|s: int|
                #![trigger result.dependents@[s]]
                0 <= s < output.dependents@.len() ==> result.dependents@[s]@
                    == output.dependents@[s]@ || (!output.dependents@[s]@.contains(c)
                    && result.dependents@[s]@ == output.dependents@[s]@.push(c))
        }
}

/// `v` is a result that `f` returns when it is evaluated as computed state
/// `c` on a scope whose signals hold `values`, and `deps` is the dependency
/// record that this evaluation left for `c`: the signals that `f` read.
pub open spec fn evaluates_to<T, E, F: Fn(Registry<T, E>) -> (T, Registry<T, E>)>(
    f: F,
    values: Seq<Option<T>>,
    c: usize,
    v: T,
    deps: Seq<usize>,
) -> bool {
    exists|input: Registry<T, E>, output: Registry<T, E>|
        #![trigger f.ensures((input,), (v, output))]
        {
            &&& input.values@ == values
            &&& input.current == Some(c)
            &&& c < input.states@.len()
            &&& input.states@[c as int].dirty
            &&& input.states@[c as int].dependencies@.len() == 0
            &&& f.ensures((input,), (v, output))
            &&& deps == output.states@[c as int].dependencies@
        }
}

/// A memoized value derived from signals. It caches its result, records
/// which signals it read, and publishes the result through a signal of its
/// own so that other computed signals and effects can depend on it.
pub struct ComputedSignal<T, F> {
    compute_fn: F,
    cached_value: Option<T>,
    signal: Signal,
    state: usize,
    known: Ghost<Set<usize>>,
}

impl<T: Copy, F> ComputedSignal<T, F> {
    pub closed spec fn compute(&self) -> F {
        self.compute_fn
    }

    pub closed spec fn cached(&self) -> Option<T> {
        self.cached_value
    }

    /// Id of this computed signal's state in the scope's arena.
    pub closed spec fn state_id(&self) -> usize {
        self.state
    }

    /// The signals that were created when this computed signal was: the
    /// ones its compute function may rely on.
    pub closed spec fn known(&self) -> Set<usize> {
        self.known@
    }

    /// The signal that publishes the result.
    pub closed spec fn published(&self) -> Signal {
        self.signal
    }

    /// The handles held point into `reg`.
    pub open spec fn wf_in<E>(&self, reg: &Registry<T, E>) -> bool {
        &&& reg.valid_state(self.state_id())
        &&& reg.valid_signal(self.published()@)
        &&& self.known().subset_of(reg.valid_signals())
    }

    /// A read now returns the cached value without evaluating anything.
    pub open spec fn is_memoized<E>(&self, reg: &Registry<T, E>) -> bool {
        &&& !reg.is_dirty(self.state_id() as int)
        &&& self.cached().is_some()
    }

    /// Exposes the signal that publishes the result, for use as a dependency
    /// of other computed signals or as the target of effects.
    pub fn signal(&self) -> (r: &Signal)
        ensures
            *r == self.published(),
    {
        &self.signal
    }

    /// The current value. When the cache is clean it is returned as it is,
    /// with no other effect. Otherwise the compute function is evaluated on
    /// the current values, with this computed signal installed as the
    /// current computation so that the signals it reads become its new
    /// dependencies; the result is cached, the computed signal registers
    /// against each dependency, and the result is published: computed
    /// signals that read the published signal are marked dirty, and no
    /// subscriber runs.
    pub fn value<E: Fn()>(&mut self, reg: &mut Registry<T, E>) -> (r: T) where
        F: Fn(Registry<T, E>) -> (T, Registry<T, E>),
        requires
            old(reg).wf(),
            old(self).wf_in(old(reg)),
            compute_ok(old(self).compute(), old(self).known()),
        ensures
            final(reg).wf(),
            final(self).wf_in(final(reg)),
            read_outcome(*old(self), *old(reg), *final(self), *final(reg), r),
    {
        let clean = !reg.states[self.state].dirty;
        match self.cached_value {
            Some(v) => {
                if clean {
                    return v;
                }
            },
            None => {},
        }
        proof {
            lemma_compute_ok_widen(self.compute_fn, self.known@, reg.valid_signals());
        }
        let v = evaluate(&self.compute_fn, self.state, reg);
        self.cached_value = Some(v);
        let ghost evaluated_reg = *reg;
        self.signal.set_silent(reg, v);
        let ghost published = *reg;
        assert(evaluated_reg.valid_signals().subset_of(published.valid_signals())) by {
            assert forall|x: usize| evaluated_reg.valid_signals().contains(x) implies published.valid_signals().contains(
                x,
            ) by {
                if x != self.signal@ {
                    assert(published.values@[x as int] == evaluated_reg.values@[x as int]);
                }
            }
        }
        // Computed signals that read the published value are now stale; no
        // subscriber is called. If this computed read its own published
        // signal, it is clean all the same: it was just evaluated.
        mark_dependents_dirty(reg, self.signal.id());
        proof {
            let c = self.state as int;
            assert forall|k: int|
                0 <= k < reg.states@[c].dependencies@.len() implies #[trigger] reg.dependents@[
                reg.states@[c].dependencies@[k] as int]@.contains(self.state) by {
                assert(reg.states@[c].dependencies@ == published.states@[c].dependencies@);
                assert(published.states@[c].dependencies@[k] == reg.states@[c].dependencies@[k]);
            }
        }
        mark_clean(reg, self.state);
        assert(published.valid_signals() =~= reg.valid_signals());
        v
    }
}

/// What one read of computed signal `before` in scope `reg` yields, as
/// [`ComputedSignal::value`] performs it: the value `r`, the computed signal
/// `after` and the scope `after_reg`.
///
/// The result is cached and the computed signal is left clean. When it was
/// already clean nothing changes and the cached value is returned. Otherwise
/// `r` is what the compute function returns on the current values, the
/// signals it read become the dependency record, and `r` is published:
/// the computed states registered against the published signal are marked
/// dirty (the one read stays clean) and no subscriber is called.
pub open spec fn read_outcome<T: Copy, E: Fn(), F: Fn(Registry<T, E>) -> (T, Registry<T, E>)>(
    before: ComputedSignal<T, F>,
    reg: Registry<T, E>,
    after: ComputedSignal<T, F>,
    after_reg: Registry<T, E>,
    r: T,
) -> bool {
    &&& after.compute() == before.compute()
    &&& after.state_id() == before.state_id()
    &&& after.published() == before.published()
    &&& after.known() == before.known()
    &&& after.cached() == Some(r)
    &&& after.is_memoized(&after_reg)
    &&& before.is_memoized(&reg) ==> r == before.cached()->0 && after_reg == reg && after == before
    &&& !before.is_memoized(&reg) ==> evaluates_to(
        before.compute(),
        reg.values@,
        before.state_id(),
        r,
        after_reg.deps(before.state_id() as int),
    )
    &&& !before.is_memoized(&reg) ==> exists|evaluated_reg: Registry<T, E>|
        {
            &&& #[trigger] evaluated(before.compute(), reg, before.state_id(), r, evaluated_reg)
            &&& after_reg.values@ == evaluated_reg.values@.update(before.published()@ as int, Some(r))
            &&& after_reg.subscribers@ == evaluated_reg.subscribers@
            &&& after_reg.dependents@ == evaluated_reg.dependents@
            &&& after_reg.states@.len() == evaluated_reg.states@.len()
            &&& forall|x: int|
                #![trigger after_reg.states@[x]]
                0 <= x < evaluated_reg.states@.len() ==> after_reg.states@[x].dependencies@
                    == evaluated_reg.states@[x].dependencies@ && (x != before.state_id()
                    ==> after_reg.states@[x].dirty == (evaluated_reg.states@[x].dirty
                    || evaluated_reg.dependents_of(before.published()@ as int).contains(
                    x as usize,
                )))
            &&& after_reg.current == evaluated_reg.current
            &&& after_reg.notified@ == evaluated_reg.notified@
        }
}

/// Memoization: of two reads with nothing in between, the second evaluates
/// nothing. It returns the first one's value and leaves the computed signal
/// and the scope as the first read left them.
pub proof fn lemma_second_read_is_cached<T: Copy, E: Fn(), F: Fn(Registry<T, E>) -> (T, Registry<T, E>)>(
    c0: ComputedSignal<T, F>,
    reg0: Registry<T, E>,
    c1: ComputedSignal<T, F>,
    reg1: Registry<T, E>,
    r1: T,
    c2: ComputedSignal<T, F>,
    reg2: Registry<T, E>,
    r2: T,
)
    requires
        read_outcome(c0, reg0, c1, reg1, r1),
        read_outcome(c1, reg1, c2, reg2, r2),
    ensures
        r2 == r1,
        c2 == c1,
        reg2 == reg1,
{
}

/// Freshness: when computed signal `c` read signal `s` in its latest
/// evaluation, a write of `v` to `s` followed by a read of `c` evaluates the
/// compute function again, on the values as they stand after the write.
pub proof fn lemma_read_after_write_is_fresh<
    T: Copy,
    E: Fn(),
    F: Fn(Registry<T, E>) -> (T, Registry<T, E>),
>(
    c: ComputedSignal<T, F>,
    reg: Registry<T, E>,
    s: Signal,
    v: T,
    written: Registry<T, E>,
    c_after: ComputedSignal<T, F>,
    read: Registry<T, E>,
    r: T,
)
    requires
        reg.wf(),
        c.wf_in(&reg),
        reg.deps(c.state_id() as int).contains(s@),
        write_outcome(reg, s, v, written),
        read_outcome(c, written, c_after, read, r),
    ensures
        evaluates_to(
            c.compute(),
            reg.values@.update(s@ as int, Some(v)),
            c.state_id(),
            r,
            read.deps(c.state_id() as int),
        ),
{
    assert(written.states@[c.state_id() as int].dirty);
}

/// Silent publishing: a read of a computed signal calls no subscriber, not
/// even those of its published signal, whether or not it evaluates: the
/// log of subscriber calls after the read is the one from before it.
/// Subscribers of the published signal run only on a notifying write or an
/// explicit notify.
pub proof fn lemma_read_is_silent<T: Copy, E: Fn(), F: Fn(Registry<T, E>) -> (T, Registry<T, E>)>(
    c: ComputedSignal<T, F>,
    reg: Registry<T, E>,
    c_after: ComputedSignal<T, F>,
    after: Registry<T, E>,
    r: T,
)
    requires
        read_outcome(c, reg, c_after, after, r),
    ensures
        after.notified@ == reg.notified@,
{
    if !c.is_memoized(&reg) {
        let evaluated_reg = choose|evaluated_reg: Registry<T, E>|
            {
                &&& #[trigger] evaluated(c.compute(), reg, c.state_id(), r, evaluated_reg)
                &&& after.notified@ == evaluated_reg.notified@
            };
        let (input, output) = choose|input: Registry<T, E>, output: Registry<T, E>|
            {
                &&& evaluation_input(input, reg, c.state_id())
                &&& #[trigger] c.compute().ensures((input,), (r, output))
                &&& evaluation_keeps(input, output)
                &&& evaluated_reg.notified@ == output.notified@
            };
    }
}

/// Marks computed state `c` clean; it is registered against every signal
/// in its dependency record.
fn mark_clean<T, E: Fn()>(reg: &mut Registry<T, E>, c: usize)
    requires
        old(reg).wf(),
        old(reg).valid_state(c),
        forall|k: int|
            0 <= k < old(reg).states@[c as int].dependencies@.len() ==> #[trigger] old(reg).dependents@[old(reg).states@[c as int].dependencies@[k] as int]@.contains(c),
    ensures
        final(reg).wf(),
        final(reg).states@.len() == old(reg).states@.len(),
        !final(reg).states@[c as int].dirty,
        final(reg).states@[c as int].dependencies@ == old(reg).states@[c as int].dependencies@,
        forall|x: int|
            #![trigger final(reg).states@[x]]
            0 <= x < old(reg).states@.len() && x != c ==> final(reg).states@[x] == old(reg).states@[x],
        final(reg).values@ == old(reg).values@,
        final(reg).subscribers@ == old(reg).subscribers@,
        final(reg).dependents@ == old(reg).dependents@,
        final(reg).current == old(reg).current,
        final(reg).notified@ == old(reg).notified@,
{
    let ghost pre = *reg;
    let mut st = ComputedState::new();
    std::mem::swap(&mut st, &mut reg.states[c]);
    st.dirty = false;
    reg.states.set(c, st);
    proof {
        assert(reg.states@ == pre.states@.update(c as int, reg.states@[c as int]));
        assert forall|x: int, j: int|
            #![trigger reg.states@[x].dependencies@[j]]
            0 <= x < reg.states@.len() && 0 <= j < reg.states@[x].dependencies@.len()
                implies reg.states@[x].dependencies@[j] < reg.values@.len() by {
            assert(reg.states@[x].dependencies@ == pre.states@[x].dependencies@);
        }
        assert forall|x: int|
            #![trigger reg.states@[x]]
            0 <= x < reg.states@.len() implies reg.states@[x].dependencies@.no_duplicates() by {
            assert(reg.states@[x].dependencies@ == pre.states@[x].dependencies@);
        }
        assert forall|x: int, j: int|
            #![trigger reg.states@[x].dependencies@[j]]
            0 <= x < reg.states@.len() && !reg.states@[x].dirty && 0 <= j
                < reg.states@[x].dependencies@.len() implies reg.dependents@[reg.states@[
                x].dependencies@[j] as int]@.contains(x as usize) by {
            if x != c {
                assert(reg.states@[x] == pre.states@[x]);
            } else {
                assert(reg.states@[x].dependencies@[j] == pre.states@[x].dependencies@[j]);
            }
        }
    }
}

/// Evaluates computed state `c` with `f` as [`evaluated`] describes.
fn evaluate<T, E: Fn(), F: Fn(Registry<T, E>) -> (T, Registry<T, E>)>(
    f: &F,
    c: usize,
    reg: &mut Registry<T, E>,
) -> (v: T)
    requires
        old(reg).wf(),
        old(reg).valid_state(c),
        compute_ok(*f, old(reg).valid_signals()),
    ensures
        final(reg).wf(),
        final(reg).values@.len() >= old(reg).values@.len(),
        final(reg).states@.len() >= old(reg).states@.len(),
        old(reg).valid_signals().subset_of(final(reg).valid_signals()),
        evaluated(*f, *old(reg), c, v, *final(reg)),
{
    let ghost start = *reg;
    // Install `c` as the current computation, dirty, with no dependencies.
    let prev = set_current_computed(reg, Some(c));
    reg.states.set(c, ComputedState::new());
    let ghost input = *reg;
    proof {
        assert(input.states@ == start.states@.update(c as int, input.states@[c as int]));
        assert forall|x: int, k: int|
            #![trigger input.states@[x].dependencies@[k]]
            0 <= x < input.states@.len() && 0 <= k < input.states@[x].dependencies@.len()
                implies input.states@[x].dependencies@[k] < input.values@.len() by {
            assert(x != c);
            assert(input.states@[x] == start.states@[x]);
        }
        assert forall|x: int|
            #![trigger input.states@[x]]
            0 <= x < input.states@.len() implies input.states@[x].dependencies@.no_duplicates() by {
            if x != c {
                assert(input.states@[x] == start.states@[x]);
            }
        }
        assert forall|x: int, k: int|
            #![trigger input.states@[x].dependencies@[k]]
            0 <= x < input.states@.len() && !input.states@[x].dirty && 0 <= k
                < input.states@[x].dependencies@.len() implies input.dependents@[input.states@[
                x].dependencies@[k] as int]@.contains(x as usize) by {
            assert(x != c);
            assert(input.states@[x] == start.states@[x]);
        }
        assert(evaluation_input(input, start, c));
    }
    // Run the compute function on the scope.
    let mut scope = Registry::new();
    std::mem::swap(reg, &mut scope);
    let (v, back) = f(scope);
    *reg = back;
    let ghost output = *reg;
    assert(evaluation_keeps(input, output));
    assert(start.valid_signals().subset_of(output.valid_signals())) by {
        assert forall|x: usize| start.valid_signals().contains(x) implies output.valid_signals().contains(
            x,
        ) by {
            assert(input.valid_signal(x));
        }
    }
    // Restore the previous computation.
    set_current_computed(reg, prev);
    // Register against every signal read.
    let n = reg.states[c].dependencies.len();
    let mut k: usize = 0;
    while k < n
        invariant
            reg.wf(),
            0 <= k <= n,
            c < reg.states@.len(),
            n == output.states@[c as int].dependencies@.len(),
            reg.states@ == output.states@,
            reg.values@ == output.values@,
            reg.subscribers@ == output.subscribers@,
            reg.notified@ == output.notified@,
            reg.current == start.current,
            reg.dependents@.len() == output.dependents@.len(),
            forall|s: int|
                #![trigger reg.dependents@[s]]
                0 <= s < output.dependents@.len() ==> reg.dependents@[s]@
                    == output.dependents@[s]@ || (!output.dependents@[s]@.contains(c)
                    && reg.dependents@[s]@ == output.dependents@[s]@.push(c)),
            forall|j: int|
                #![trigger output.states@[c as int].dependencies@[j]]
                0 <= j < k ==> reg.dependents@[output.states@[c as int].dependencies@[
                j] as int]@.contains(c),
        decreases n - k,
    {
        let d = reg.states[c].dependencies[k];
        let ghost before = *reg;
        // An earlier evaluation may have registered `c` against `d` already;
        // registering it again would only grow the list.
        if !vec_contains(&reg.dependents[d], c) {
            register_dependent(reg, d, c);
            proof {
                assert(d < before.dependents@.len());
                assert(reg.dependents_view()[d as int] == before.dependents_view()[d as int].push(
                    c,
                ));
                assert(reg.dependents@[d as int]@ == before.dependents@[d as int]@.push(c));
                assert(reg.dependents@[d as int]@[before.dependents@[d as int]@.len() as int]
                    == c);
                assert forall|j: int|
                    #![trigger output.states@[c as int].dependencies@[j]]
                    0 <= j < k + 1 implies reg.dependents@[output.states@[
                    c as int].dependencies@[j] as int]@.contains(c) by {
                    let e = output.states@[c as int].dependencies@[j] as int;
                    if e != d as int {
                        assert(reg.dependents_view()[e] == before.dependents_view()[e]);
                        assert(reg.dependents@[e]@ == before.dependents@[e]@);
                    } else if j < k {
                        let i = choose|i: int|
                            0 <= i < before.dependents@[e]@.len() && before.dependents@[e]@[i]
                                == c;
                        assert(reg.dependents@[e]@[i] == c);
                    }
                }
                assert forall|x: int|
                    #![trigger reg.dependents@[x]]
                    0 <= x < output.dependents@.len() implies reg.dependents@[x]@
                        == output.dependents@[x]@ || (!output.dependents@[x]@.contains(c)
                        && reg.dependents@[x]@ == output.dependents@[x]@.push(c)) by {
                    if x != d as int {
                        assert(reg.dependents_view()[x] == before.dependents_view()[x]);
                    } else if before.dependents@[x]@ != output.dependents@[x]@ {
                        assert(before.dependents@[x]@[output.dependents@[x]@.len() as int] == c);
                    }
                }
            }
        }
        k = k + 1;
    }
    // Mark `c` clean.
    let ghost registered = *reg;
    let mut st = ComputedState::new();
    std::mem::swap(&mut st, &mut reg.states[c]);
    st.dirty = false;
    reg.states.set(c, st);
    proof {
        assert(reg.states@ == registered.states@.update(c as int, reg.states@[c as int]));
        assert(reg.states@[c as int].dependencies@ == registered.states@[c as int].dependencies@);
        assert forall|x: int, j: int|
            #![trigger reg.states@[x].dependencies@[j]]
            0 <= x < reg.states@.len() && 0 <= j < reg.states@[x].dependencies@.len()
                implies reg.states@[x].dependencies@[j] < reg.values@.len() by {
            assert(reg.states@[x].dependencies@ == registered.states@[x].dependencies@);
        }
        assert forall|x: int|
            #![trigger reg.states@[x]]
            0 <= x < reg.states@.len() implies reg.states@[x].dependencies@.no_duplicates() by {
            assert(reg.states@[x].dependencies@ == registered.states@[x].dependencies@);
        }
        assert forall|x: int, j: int|
            #![trigger reg.states@[x].dependencies@[j]]
            0 <= x < reg.states@.len() && !reg.states@[x].dirty && 0 <= j
                < reg.states@[x].dependencies@.len() implies reg.dependents@[reg.states@[
                x].dependencies@[j] as int]@.contains(x as usize) by {
            if x != c {
                assert(reg.states@[x] == registered.states@[x]);
            } else {
                assert(reg.states@[x].dependencies@[j] == output.states@[c as int].dependencies@[j]);
            }
        }
        assert(evaluated(*f, start, c, v, *reg));
    }
    v
}

/// `pre` is `reg` with one computed state added to its arena: dirty, with
/// no dependencies, and with the next free id.
pub open spec fn with_state_added<T, E>(pre: Registry<T, E>, reg: Registry<T, E>) -> bool {
    &&& pre.values@ == reg.values@
    &&& pre.subscribers@ == reg.subscribers@
    &&& pre.dependents@ == reg.dependents@
    &&& pre.current == reg.current
    &&& pre.notified@ == reg.notified@
    &&& pre.states@.len() == reg.states@.len() + 1
    &&& forall|x: int|
        #![trigger pre.states@[x]]
        0 <= x < reg.states@.len() ==> pre.states@[x] == reg.states@[x]
    &&& pre.states@[reg.states@.len() as int].dirty
    &&& pre.states@[reg.states@.len() as int].dependencies@.len() == 0
}

/// Creates a computed signal from `f` and evaluates it once, so that its
/// dependencies are known from the start. Its published signal is created
/// afterwards, holding that first result.
pub fn create_computed<T: Copy, E: Fn(), F: Fn(Registry<T, E>) -> (T, Registry<T, E>)>(
    reg: &mut Registry<T, E>,
    f: F,
) -> (r: ComputedSignal<T, F>)
    requires
        old(reg).wf(),
        compute_ok(f, old(reg).valid_signals()),
    ensures
        final(reg).wf(),
        r.wf_in(final(reg)),
        r.compute() == f,
        r.state_id() == old(reg).num_states(),
        r.is_memoized(final(reg)),
        compute_ok(r.compute(), r.known()),
        r.known() == old(reg).valid_signals(),
        r.cached() is Some,
        evaluates_to(f, old(reg).values@, r.state_id(), r.cached()->0, final(reg).deps(r.state_id() as int)),
        r.published()@ >= old(reg).num_signals(),
        r.published()@ + 1 == final(reg).num_signals(),
        final(reg).subscribers@[r.published()@ as int]@.len() == 0,
        final(reg).dependents_of(r.published()@ as int).len() == 0,
        exists|pre: Registry<T, E>, evaluated_reg: Registry<T, E>|
            {
                &&& with_state_added(pre, *old(reg))
                &&& #[trigger] evaluated(f, pre, r.state_id(), r.cached()->0, evaluated_reg)
                &&& final(reg).values@ == evaluated_reg.values@.push(Some(r.cached()->0))
                &&& final(reg).subscribers@.len() == evaluated_reg.subscribers@.len() + 1
                &&& forall|i: int|
                    #![trigger final(reg).subscribers@[i]]
                    0 <= i < evaluated_reg.subscribers@.len() ==> final(reg).subscribers@[i]
                        == evaluated_reg.subscribers@[i]
                &&& final(reg).dependents_view() == evaluated_reg.dependents_view().push(
                    Seq::empty(),
                )
                &&& final(reg).states@ == evaluated_reg.states@
                &&& final(reg).current == evaluated_reg.current
                &&& final(reg).notified@ == evaluated_reg.notified@
            },
{
    let ghost start = *reg;
    let c = reg.states.len();
    reg.states.push(ComputedState::new());
    proof {
        assert forall|x: int, k: int|
            #![trigger reg.states@[x].dependencies@[k]]
            0 <= x < reg.states@.len() && 0 <= k < reg.states@[x].dependencies@.len()
                implies reg.states@[x].dependencies@[k] < reg.values@.len() by {
            assert(reg.states@[x] == start.states@[x]);
        }
        assert forall|x: int|
            #![trigger reg.states@[x]]
            0 <= x < reg.states@.len() implies reg.states@[x].dependencies@.no_duplicates() by {
            if x < c {
                assert(reg.states@[x] == start.states@[x]);
            }
        }
        assert forall|x: int, j: int|
            #![trigger reg.states@[x].dependencies@[j]]
            0 <= x < reg.states@.len() && !reg.states@[x].dirty && 0 <= j
                < reg.states@[x].dependencies@.len() implies reg.dependents@[reg.states@[
                x].dependencies@[j] as int]@.contains(x as usize) by {
            assert(reg.states@[x] == start.states@[x]);
        }
    }
    let ghost pre = *reg;
    assert(with_state_added(pre, start));
    let v = evaluate(&f, c, reg);
    let ghost evaluated_reg = *reg;
    let signal = Signal::new(reg, v);
    assert(evaluated_reg.valid_signals().subset_of(reg.valid_signals())) by {
        assert forall|x: usize| evaluated_reg.valid_signals().contains(x) implies reg.valid_signals().contains(
            x,
        ) by {
            assert(reg.values@[x as int] == evaluated_reg.values@[x as int]);
        }
    }
    assert(pre.valid_signals() =~= start.valid_signals());
    assert(reg.dependents_view()[signal@ as int] == reg.dependents@[signal@ as int]@);
    ComputedSignal {
        compute_fn: f,
        cached_value: Some(v),
        signal,
        state: c,
        known: Ghost(start.valid_signals()),
    }
}

} // verus!
