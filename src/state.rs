use vstd::prelude::*;

use crate::executor::Executor;
use crate::predicate::Condition;
use crate::status::{ApplyError, ApplyStatus};
use crate::target::Target;
use crate::state::compose::ComposedState;
use crate::state::only_if::OnlyIfState;

pub mod compose;
pub mod only_if;
pub mod depends_on;
pub mod if_changed;
pub mod condition;
pub mod graph;

verus! {

/// Draws a value that rand's standard distribution can produce.
pub assume_specification<T>[ rand::random::<T> ]() -> (r: T)
    where
        rand::distributions::Standard: rand::distributions::Distribution<T>,
;

/// A named unit of desired-state enforcement.
pub trait State {
    /// Whether applying the state to `target` may take the executor's journal
    /// from `before` to `after` with outcome `r`.
    spec fn run(
        &self,
        target: Target,
        before: Seq<Seq<char>>,
        after: Seq<Seq<char>>,
        r: Result<ApplyStatus, ApplyError>,
    ) -> bool;

    /// The name of the state.
    spec fn label(&self) -> Seq<char>;

    fn apply(&self, executor: &mut Executor, target: &Target) -> (r: Result<ApplyStatus, ApplyError>)
        ensures
            self.run(*target, old(executor)@, final(executor)@, r),
    ;

    fn name(&self) -> (r: String)
        ensures
            r@ == self.label(),
    ;
}

/// Builders that wrap a state in a combinator.
pub trait StateExt: State + Sized {
    /// This state, then `other`.
    fn compose<R: State>(self, other: R) -> (r: ComposedState<Self, R>)
        ensures
            r.left == self,
            r.right == other,
    {
        ComposedState::new(self, other)
    }

    /// This state, only on targets where `cond` holds.
    fn only_if(self, cond: Condition) -> (r: OnlyIfState<Self>)
        ensures
            r.inner == self,
            r.cond == cond,
    {
        OnlyIfState::new(self, cond)
    }
}

impl<T: State> StateExt for T {}

/// A state that does nothing and never changes anything.
pub struct NOOP(pub &'static str);

impl State for NOOP {
    open spec fn run(
        &self,
        target: Target,
        before: Seq<Seq<char>>,
        after: Seq<Seq<char>>,
        r: Result<ApplyStatus, ApplyError>,
    ) -> bool {
        after == before && r == Ok::<ApplyStatus, ApplyError>(ApplyStatus::NotChanged)
    }

    open spec fn label(&self) -> Seq<char> {
        self.0@
    }

    fn apply(&self, executor: &mut Executor, target: &Target) -> (r: Result<ApplyStatus, ApplyError>) {
        Ok(ApplyStatus::NotChanged)
    }

    fn name(&self) -> (r: String) {
        self.0.to_owned()
    }
}

/// A state that records itself and reports a change at random.
pub struct PrintAndApplyRandomly(pub &'static str);

impl State for PrintAndApplyRandomly {
    open spec fn run(
        &self,
        target: Target,
        before: Seq<Seq<char>>,
        after: Seq<Seq<char>>,
        r: Result<ApplyStatus, ApplyError>,
    ) -> bool {
        after == before.push(self.0@) && r is Ok
    }

    open spec fn label(&self) -> Seq<char> {
        self.0@
    }

    fn apply(&self, executor: &mut Executor, target: &Target) -> (r: Result<ApplyStatus, ApplyError>) {
        let changed: bool = rand::random::<bool>();
        let status = if changed {
            ApplyStatus::Changed
        } else {
            ApplyStatus::NotChanged
        };
        executor.record(self.0.to_owned());
        Ok(status)
    }

    fn name(&self) -> (r: String) {
        self.0.to_owned()
    }
}

/// A state that records itself and always reports `status`.
pub struct Fixed {
    pub name: String,
    pub status: ApplyStatus,
}

impl Fixed {
    pub fn new(name: &str, status: ApplyStatus) -> (r: Fixed)
        ensures
            r.name@ == name@,
            r.status == status,
    {
        Fixed { name: name.to_owned(), status }
    }
}

impl State for Fixed {
    open spec fn run(
        &self,
        target: Target,
        before: Seq<Seq<char>>,
        after: Seq<Seq<char>>,
        r: Result<ApplyStatus, ApplyError>,
    ) -> bool {
        after == before.push(self.name@) && r == Ok::<ApplyStatus, ApplyError>(self.status)
    }

    open spec fn label(&self) -> Seq<char> {
        self.name@
    }

    fn apply(&self, executor: &mut Executor, target: &Target) -> (r: Result<ApplyStatus, ApplyError>) {
        executor.record(self.name.clone());
        Ok(self.status)
    }

    fn name(&self) -> (r: String) {
        self.name.clone()
    }
}

/// A state whose effect fails every time: it records itself and reports an
/// error that carries its name.
pub struct Failing {
    pub name: String,
}

impl Failing {
    pub fn new(name: &str) -> (r: Failing)
        ensures
            r.name@ == name@,
    {
        Failing { name: name.to_owned() }
    }
}

impl State for Failing {
    open spec fn run(
        &self,
        target: Target,
        before: Seq<Seq<char>>,
        after: Seq<Seq<char>>,
        r: Result<ApplyStatus, ApplyError>,
    ) -> bool {
        after == before.push(self.name@) && r is Err && r->Err_0.message_view() == self.name@
    }

    open spec fn label(&self) -> Seq<char> {
        self.name@
    }

    fn apply(&self, executor: &mut Executor, target: &Target) -> (r: Result<ApplyStatus, ApplyError>) {
        executor.record(self.name.clone());
        Err(ApplyError::new(self.name.clone()))
    }

    fn name(&self) -> (r: String) {
        self.name.clone()
    }
}

} // verus!
