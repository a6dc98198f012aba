use vstd::prelude::*;

use crate::executor::Executor;
use crate::state::State;
use crate::status::{fold_results, ApplyError, ApplyStatus};
use crate::target::Target;

verus! {

/// Sequential composition as a method of the left-hand state.
pub trait Compose: State + Sized {
    /// This state, then `other`.
    fn compose<R: State>(self, other: R) -> (r: ComposedState<Self, R>)
        ensures
            r.left == self,
            r.right == other,
    {
        ComposedState { left: self, right: other }
    }
}

/// Both states, left then right. Both always run; the outcome folds theirs.
pub struct ComposedState<L, R> {
    pub left: L,
    pub right: R,
}

impl<L: State, R: State> ComposedState<L, R> {
    pub fn new(left: L, right: R) -> (r: ComposedState<L, R>)
        ensures
            r.left == left,
            r.right == right,
    {
        ComposedState { left, right }
    }
}

impl<L: State, R: State> State for ComposedState<L, R> {
    open spec fn run(
        &self,
        target: Target,
        before: Seq<Seq<char>>,
        after: Seq<Seq<char>>,
        r: Result<ApplyStatus, ApplyError>,
    ) -> bool {
        exists|mid: Seq<Seq<char>>, rl: Result<ApplyStatus, ApplyError>, rr: Result<ApplyStatus, ApplyError>|
            #![trigger self.left.run(target, before, mid, rl), self.right.run(target, mid, after, rr)]
            self.left.run(target, before, mid, rl) && self.right.run(target, mid, after, rr)
                && r == fold_results(rl, rr)
    }

    open spec fn label(&self) -> Seq<char> {
        self.left.label() + " + "@ + self.right.label()
    }

    fn apply(&self, executor: &mut Executor, target: &Target) -> (r: Result<ApplyStatus, ApplyError>) {
        let ghost before = executor@;
        let left = self.left.apply(executor, target);
        let ghost mid = executor@;
        let right = self.right.apply(executor, target);
        let r = match left {
            Err(e) => Err(e),
            Ok(a) => match right {
                Err(e) => Err(e),
                Ok(b) => Ok(a.add(b)),
            },
        };
        assert(self.left.run(*target, before, mid, left) && self.right.run(*target, mid, executor@, right));
        r
    }

    fn name(&self) -> (r: String) {
        let mut s = self.left.name();
        s.append(" + ");
        let right = self.right.name();
        s.append(right.as_str());
        proof { reveal_strlit(" + "); }
        s
    }
}

} // verus!
