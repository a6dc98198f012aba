use vstd::prelude::*;

use crate::executor::Executor;
use crate::state::State;
use crate::status::{ApplyError, ApplyStatus};
use crate::target::Target;

verus! {

/// A state applied after its dependency, whatever the dependency reported.
/// The outcome is the state's own.
pub struct DependOnState<'dep, S, D> {
    pub state: S,
    pub dep: &'dep D,
}

impl<'dep, S: State, D: State> DependOnState<'dep, S, D> {
    pub fn new(state: S, dep: &'dep D) -> (r: DependOnState<'dep, S, D>)
        ensures
            r.state == state,
            r.dep == dep,
    {
        DependOnState { state, dep }
    }
}

impl<'dep, S: State, D: State> State for DependOnState<'dep, S, D> {
    open spec fn run(
        &self,
        target: Target,
        before: Seq<Seq<char>>,
        after: Seq<Seq<char>>,
        r: Result<ApplyStatus, ApplyError>,
    ) -> bool {
        exists|mid: Seq<Seq<char>>, rd: Result<ApplyStatus, ApplyError>|
            #[trigger] self.dep.run(target, before, mid, rd) && match rd {
                Err(e) => after == mid && r == Err::<ApplyStatus, ApplyError>(e),
                Ok(_) => self.state.run(target, mid, after, r),
            }
    }

    open spec fn label(&self) -> Seq<char> {
        self.state.label()
    }

    fn apply(&self, executor: &mut Executor, target: &Target) -> (r: Result<ApplyStatus, ApplyError>) {
        let ghost before = executor@;
        let rd = self.dep.apply(executor, target);
        let ghost mid = executor@;
        assert(self.dep.run(*target, before, mid, rd));
        match rd {
            Err(e) => Err(e),
            Ok(_) => self.state.apply(executor, target),
        }
    }

    fn name(&self) -> (r: String) {
        self.state.name()
    }
}

} // verus!
