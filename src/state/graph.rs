use vstd::prelude::*;

use crate::executor::Executor;
use crate::state::State;
use crate::status::{combine, ApplyError, ApplyStatus};
use crate::target::Target;

verus! {

/// A group of states: it applies its dependencies first, then, unless
/// change-gating dependencies all report no change, its own state and each
/// of its sub-states in order.
pub struct GraphState<'dep, S, C> {
    pub name: String,
    pub states: Vec<C>,
    pub root: Option<S>,
    pub dependencies: Vec<&'dep S>,
    pub if_changed: Vec<&'dep S>,
}

impl<'dep, S: State, C: State> GraphState<'dep, S, C> {
    /// A named group of the sub-states that `builder` returns.
    pub fn new<F: FnOnce() -> Vec<C>>(name: &'static str, builder: F) -> (r: GraphState<'dep, S, C>)
        requires
            builder.requires(()),
        ensures
            builder.ensures((), r.states),
            r.name@ == name@,
            r.root is None,
            r.dependencies@.len() == 0,
            r.if_changed@.len() == 0,
    {
        let states = builder();
        GraphState {
            name: name.to_owned(),
            states,
            root: None,
            dependencies: Vec::new(),
            if_changed: Vec::new(),
        }
    }

    /// A group that holds `state` alone, under its name.
    pub fn wrapping(state: S) -> (r: GraphState<'dep, S, C>)
        ensures
            r.name@ == state.label(),
            r.root == Some(state),
            r.states@.len() == 0,
            r.dependencies@.len() == 0,
            r.if_changed@.len() == 0,
    {
        let name = state.name();
        GraphState {
            name,
            states: Vec::new(),
            root: Some(state),
            dependencies: Vec::new(),
            if_changed: Vec::new(),
        }
    }

    /// Adds a dependency, applied before the group whatever it reports.
    pub fn depends_on(&mut self, state: &'dep S)
        ensures
            final(self).dependencies@ == old(self).dependencies@.push(state),
            final(self).if_changed == old(self).if_changed,
            final(self).states == old(self).states,
            final(self).root == old(self).root,
            final(self).name == old(self).name,
    {
        self.dependencies.push(state);
    }

    /// Adds a change-gating dependency: the group's states run only if the
    /// outcomes of these dependencies, folded, report a change.
    pub fn if_changed(&mut self, state: &'dep S)
        ensures
            final(self).if_changed@ == old(self).if_changed@.push(state),
            final(self).dependencies == old(self).dependencies,
            final(self).states == old(self).states,
            final(self).root == old(self).root,
            final(self).name == old(self).name,
    {
        self.if_changed.push(state);
    }

    /// Applying the dependencies from the `i`-th on.
    pub open spec fn run_deps(
        &self,
        target: Target,
        i: int,
        before: Seq<Seq<char>>,
        after: Seq<Seq<char>>,
        r: Result<(), ApplyError>,
    ) -> bool
        decreases self.dependencies@.len() - i,
    {
        if i < 0 || i >= self.dependencies@.len() {
            after == before && r == Ok::<(), ApplyError>(())
        } else {
            exists|mid: Seq<Seq<char>>, rd: Result<ApplyStatus, ApplyError>|
                #[trigger] self.dependencies@[i].run(target, before, mid, rd) && match rd {
                    Err(e) => after == mid && r == Err::<(), ApplyError>(e),
                    Ok(_) => self.run_deps(target, i + 1, mid, after, r),
                }
        }
    }

    /// Applying the change-gating dependencies from the `i`-th on, with `acc`
    /// folded from the earlier ones (`None` if there were none).
    pub open spec fn run_changed(
        &self,
        target: Target,
        i: int,
        before: Seq<Seq<char>>,
        after: Seq<Seq<char>>,
        acc: Option<ApplyStatus>,
        r: Result<Option<ApplyStatus>, ApplyError>,
    ) -> bool
        decreases self.if_changed@.len() - i,
    {
        if i < 0 || i >= self.if_changed@.len() {
            after == before && r == Ok::<Option<ApplyStatus>, ApplyError>(acc)
        } else {
            exists|mid: Seq<Seq<char>>, rd: Result<ApplyStatus, ApplyError>|
                #[trigger] self.if_changed@[i].run(target, before, mid, rd) && match rd {
                    Err(e) => after == mid && r == Err::<Option<ApplyStatus>, ApplyError>(e),
                    Ok(s) => self.run_changed(
                        target,
                        i + 1,
                        mid,
                        after,
                        Some(combine(s, acc.unwrap_or(ApplyStatus::NotChanged))),
                        r,
                    ),
                }
        }
    }

    /// Applying the sub-states from the `i`-th on, with `acc` folded so far.
    pub open spec fn run_subs(
        &self,
        target: Target,
        i: int,
        before: Seq<Seq<char>>,
        after: Seq<Seq<char>>,
        acc: ApplyStatus,
        r: Result<ApplyStatus, ApplyError>,
    ) -> bool
        decreases self.states@.len() - i,
    {
        if i < 0 || i >= self.states@.len() {
            after == before && r == Ok::<ApplyStatus, ApplyError>(acc)
        } else {
            exists|mid: Seq<Seq<char>>, rs: Result<ApplyStatus, ApplyError>|
                #[trigger] self.states@[i].run(target, before, mid, rs) && match rs {
                    Err(e) => after == mid && r == Err::<ApplyStatus, ApplyError>(e),
                    Ok(s) => self.run_subs(target, i + 1, mid, after, combine(acc, s), r),
                }
        }
    }

    /// Applying the group's own state, if any, then its sub-states.
    pub open spec fn run_body(
        &self,
        target: Target,
        before: Seq<Seq<char>>,
        after: Seq<Seq<char>>,
        r: Result<ApplyStatus, ApplyError>,
    ) -> bool {
        match self.root {
            None => self.run_subs(target, 0, before, after, ApplyStatus::NotChanged, r),
            Some(s) => exists|mid: Seq<Seq<char>>, rs: Result<ApplyStatus, ApplyError>|
                #[trigger] s.run(target, before, mid, rs) && match rs {
                    Err(e) => after == mid && r == Err::<ApplyStatus, ApplyError>(e),
                    Ok(x) => self.run_subs(
                        target,
                        0,
                        mid,
                        after,
                        combine(ApplyStatus::NotChanged, x),
                        r,
                    ),
                },
        }
    }

    fn apply_deps(&self, i: usize, executor: &mut Executor, target: &Target) -> (r: Result<
        (),
        ApplyError,
    >)
        requires
            i <= self.dependencies@.len(),
        ensures
            self.run_deps(*target, i as int, old(executor)@, final(executor)@, r),
        decreases self.dependencies@.len() - i,
    {
        if i >= self.dependencies.len() {
            return Ok(());
        }
        let ghost before = executor@;
        let rd = self.dependencies[i].apply(executor, target);
        assert(self.dependencies@[i as int].run(*target, before, executor@, rd));
        match rd {
            Err(e) => Err(e),
            Ok(_) => self.apply_deps(i + 1, executor, target),
        }
    }

    fn apply_changed(
        &self,
        i: usize,
        executor: &mut Executor,
        target: &Target,
        acc: Option<ApplyStatus>,
    ) -> (r: Result<Option<ApplyStatus>, ApplyError>)
        requires
            i <= self.if_changed@.len(),
        ensures
            self.run_changed(*target, i as int, old(executor)@, final(executor)@, acc, r),
        decreases self.if_changed@.len() - i,
    {
        if i >= self.if_changed.len() {
            return Ok(acc);
        }
        let ghost before = executor@;
        let rd = self.if_changed[i].apply(executor, target);
        assert(self.if_changed@[i as int].run(*target, before, executor@, rd));
        match rd {
            Err(e) => Err(e),
            Ok(s) => {
                let prev = match acc {
                    Some(a) => a,
                    None => ApplyStatus::NotChanged,
                };
                self.apply_changed(i + 1, executor, target, Some(s.add(prev)))
            },
        }
    }

    fn apply_subs(&self, i: usize, executor: &mut Executor, target: &Target, acc: ApplyStatus) -> (r:
        Result<ApplyStatus, ApplyError>)
        requires
            i <= self.states@.len(),
        ensures
            self.run_subs(*target, i as int, old(executor)@, final(executor)@, acc, r),
        decreases self.states@.len() - i,
    {
        if i >= self.states.len() {
            return Ok(acc);
        }
        let ghost before = executor@;
        let rs = self.states[i].apply(executor, target);
        assert(self.states@[i as int].run(*target, before, executor@, rs));
        match rs {
            Err(e) => Err(e),
            Ok(s) => self.apply_subs(i + 1, executor, target, acc.add(s)),
        }
    }

    fn apply_body(&self, executor: &mut Executor, target: &Target) -> (r: Result<ApplyStatus, ApplyError>)
        ensures
            self.run_body(*target, old(executor)@, final(executor)@, r),
    {
        match &self.root {
            None => self.apply_subs(0, executor, target, ApplyStatus::NotChanged),
            Some(s) => {
                let ghost before = executor@;
                let rs = s.apply(executor, target);
                assert(s.run(*target, before, executor@, rs));
                match rs {
                    Err(e) => Err(e),
                    Ok(x) => {
                        let start = ApplyStatus::NotChanged;
                        self.apply_subs(0, executor, target, start.add(x))
                    },
                }
            },
        }
    }
}

impl<'dep, S: State, C: State> State for GraphState<'dep, S, C> {
    open spec fn run(
        &self,
        target: Target,
        before: Seq<Seq<char>>,
        after: Seq<Seq<char>>,
        r: Result<ApplyStatus, ApplyError>,
    ) -> bool {
        exists|m1: Seq<Seq<char>>, rd: Result<(), ApplyError>|
            #[trigger] self.run_deps(target, 0, before, m1, rd) && match rd {
                Err(e) => after == m1 && r == Err::<ApplyStatus, ApplyError>(e),
                Ok(_) => exists|m2: Seq<Seq<char>>, rc: Result<Option<ApplyStatus>, ApplyError>|
                    #[trigger] self.run_changed(target, 0, m1, m2, None, rc) && match rc {
                        Err(e) => after == m2 && r == Err::<ApplyStatus, ApplyError>(e),
                        Ok(acc) => if acc is None || acc == Some(ApplyStatus::Changed) {
                            self.run_body(target, m2, after, r)
                        } else {
                            after == m2 && r == Ok::<ApplyStatus, ApplyError>(
                                ApplyStatus::NotChanged,
                            )
                        },
                    },
            }
    }

    open spec fn label(&self) -> Seq<char> {
        self.name@
    }

    fn apply(&self, executor: &mut Executor, target: &Target) -> (r: Result<ApplyStatus, ApplyError>) {
        let ghost b = executor@;
        let rd = self.apply_deps(0, executor, target);
        let ghost m1 = executor@;
        assert(self.run_deps(*target, 0, b, m1, rd));
        if let Err(e) = rd {
            return Err(e);
        }
        let rc = self.apply_changed(0, executor, target, None);
        let ghost m2 = executor@;
        assert(self.run_changed(*target, 0, m1, m2, None, rc));
        let go = match rc {
            Err(e) => {
                return Err(e);
            },
            Ok(None) => true,
            Ok(Some(s)) => s == ApplyStatus::Changed,
        };
        if go {
            self.apply_body(executor, target)
        } else {
            Ok(ApplyStatus::NotChanged)
        }
    }

    fn name(&self) -> (r: String) {
        self.name.clone()
    }
}

/// Collects groups, each wrapping one state.
pub struct GraphStateBuilder<'dep, S, C> {
    pub states: Vec<GraphState<'dep, S, C>>,
}

impl<'dep, S: State, C: State> GraphStateBuilder<'dep, S, C> {
    pub fn new() -> (r: GraphStateBuilder<'dep, S, C>)
        ensures
            r.states@.len() == 0,
    {
        GraphStateBuilder { states: Vec::new() }
    }

    /// Adds a group wrapping `state` and returns it.
    pub fn add(&mut self, state: S) -> (r: &GraphState<'dep, S, C>)
        ensures
            final(self).states@.len() == old(self).states@.len() + 1,
            final(self).states@.subrange(0, old(self).states@.len() as int) == old(self).states@,
            r.root == Some(state),
            r.name@ == state.label(),
            r.states@.len() == 0,
            r.dependencies@.len() == 0,
            r.if_changed@.len() == 0,
    {
        self.states.push(GraphState::wrapping(state));
        let n = self.states.len();
        &self.states[n - 1]
    }
}

} // verus!
