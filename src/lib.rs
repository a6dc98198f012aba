pub mod status;
pub mod target;
pub mod predicate;
pub mod executor;
pub mod state;
pub mod dag;
pub mod graph;

pub use status::{ApplyError, ApplyStatus};
pub use target::{Os, OsType, Target};
pub use predicate::{Condition, StatusCondition};
pub use executor::Executor;
pub use state::{State, StateExt, NOOP, PrintAndApplyRandomly, Fixed, Failing};
pub use state::compose::{Compose, ComposedState};
pub use state::only_if::OnlyIfState;
pub use state::depends_on::DependOnState;
pub use state::if_changed::IfChangedState;
pub use state::condition::CondState;
pub use state::graph::{GraphState, GraphStateBuilder};
pub use graph::{Dependency, Graph, GraphError};
