use vstd::prelude::*;

use crate::executor::Executor;
use crate::state::State;
use crate::status::{ApplyError, ApplyStatus};
use crate::target::Target;

verus! {

/// A state applied only when its dependency, applied first, reports a change.
pub struct IfChangedState<'dep, S, D> {
    pub state: S,
    pub dep: &'dep D,
}

impl<'dep, S: State, D: State> IfChangedState<'dep, S, D> {
    pub fn new(state: S, dep: &'dep D) -> (r: IfChangedState<'dep, S, D>)
        ensures
            r.state == state,
            r.dep == dep,
    {
        IfChangedState { state, dep }
    }
}

impl<'dep, S: State, D: State> State for IfChangedState<'dep, S, D> {
    open spec fn run(
        &self,
        target: Target,
        before: Seq<Seq<char>>,
        after: Seq<Seq<char>>,
        r: Result<ApplyStatus, ApplyError>,
    ) -> bool {
        exists|mid: Seq<Seq<char>>, rd: Result<ApplyStatus, ApplyError>|
            #[trigger] self.dep.run(target, before, mid, rd) && match rd {
                Err(e) => after == mid && r == Err::<ApplyStatus, ApplyError>(e),
                Ok(ApplyStatus::Changed) => self.state.run(target, mid, after, r),
                Ok(ApplyStatus::NotChanged) => after == mid && r == Ok::<
                    ApplyStatus,
                    ApplyError,
                >(ApplyStatus::NotChanged),
            }
    }

    open spec fn label(&self) -> Seq<char> {
        self.state.label()
    }

    fn apply(&self, executor: &mut Executor, target: &Target) -> (r: Result<ApplyStatus, ApplyError>) {
        let ghost before = executor@;
        let rd = self.dep.apply(executor, target);
        let ghost mid = executor@;
        assert(self.dep.run(*target, before, mid, rd));
        match rd {
            Err(e) => Err(e),
            Ok(ApplyStatus::Changed) => self.state.apply(executor, target),
            Ok(ApplyStatus::NotChanged) => Ok(ApplyStatus::NotChanged),
        }
    }

    fn name(&self) -> (r: String) {
        self.state.name()
    }
}

/// A change-gated state applies its dependency once; it applies the state
/// itself exactly when the dependency reports `Changed`, and otherwise stops
/// there, reporting no change or the dependency's error.
pub proof fn lemma_if_changed_gate<'dep, S: State, D: State>(
    s: IfChangedState<'dep, S, D>,
    target: Target,
    before: Seq<Seq<char>>,
    after: Seq<Seq<char>>,
    r: Result<ApplyStatus, ApplyError>,
)
    requires
        s.run(target, before, after, r),
    ensures
        exists|mid: Seq<Seq<char>>, rd: Result<ApplyStatus, ApplyError>|
            #[trigger] s.dep.run(target, before, mid, rd) && (rd == Ok::<ApplyStatus, ApplyError>(
                ApplyStatus::Changed,
            ) ==> s.state.run(target, mid, after, r)) && (rd != Ok::<ApplyStatus, ApplyError>(
                ApplyStatus::Changed,
            ) ==> after == mid && (rd is Ok ==> r == Ok::<ApplyStatus, ApplyError>(
                ApplyStatus::NotChanged,
            )) && (rd is Err ==> r == rd)),
{
    let (mid, rd) = choose|mid: Seq<Seq<char>>, rd: Result<ApplyStatus, ApplyError>|
        #[trigger] s.dep.run(target, before, mid, rd) && match rd {
            Err(e) => after == mid && r == Err::<ApplyStatus, ApplyError>(e),
            Ok(ApplyStatus::Changed) => s.state.run(target, mid, after, r),
            Ok(ApplyStatus::NotChanged) => after == mid && r == Ok::<ApplyStatus, ApplyError>(
                ApplyStatus::NotChanged,
            ),
        };
    assert(s.dep.run(target, before, mid, rd));
}

} // verus!
