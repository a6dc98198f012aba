use vstd::prelude::*;

use crate::executor::Executor;
use crate::predicate::Condition;
use crate::state::State;
use crate::status::{ApplyError, ApplyStatus};
use crate::target::Target;

verus! {

/// A state applied only on targets where a condition holds.
pub struct OnlyIfState<S> {
    pub inner: S,
    pub cond: Condition,
}

impl<S: State> OnlyIfState<S> {
    pub fn new(inner: S, cond: Condition) -> (r: OnlyIfState<S>)
        ensures
            r.inner == inner,
            r.cond == cond,
    {
        OnlyIfState { inner, cond }
    }
}

impl<S: State> State for OnlyIfState<S> {
    open spec fn run(
        &self,
        target: Target,
        before: Seq<Seq<char>>,
        after: Seq<Seq<char>>,
        r: Result<ApplyStatus, ApplyError>,
    ) -> bool {
        if self.cond.holds(target) {
            self.inner.run(target, before, after, r)
        } else {
            after == before && r == Ok::<ApplyStatus, ApplyError>(ApplyStatus::NotChanged)
        }
    }

    open spec fn label(&self) -> Seq<char> {
        self.inner.label()
    }

    fn apply(&self, executor: &mut Executor, target: &Target) -> (r: Result<ApplyStatus, ApplyError>) {
        if self.cond.check(target) {
            self.inner.apply(executor, target)
        } else {
            Ok(ApplyStatus::NotChanged)
        }
    }

    fn name(&self) -> (r: String) {
        self.inner.name()
    }
}

/// When its condition fails on the target, a guarded state leaves the
/// journal as it was, since the inner state does not run, and reports no
/// change.
pub proof fn lemma_only_if_skips<S: State>(
    s: OnlyIfState<S>,
    target: Target,
    before: Seq<Seq<char>>,
    after: Seq<Seq<char>>,
    r: Result<ApplyStatus, ApplyError>,
)
    requires
        !s.cond.holds(target),
        s.run(target, before, after, r),
    ensures
        after == before,
        r == Ok::<ApplyStatus, ApplyError>(ApplyStatus::NotChanged),
{
}

} // verus!
