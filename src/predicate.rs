use vstd::prelude::*;

use crate::status::ApplyStatus;
use crate::target::{OsType, Target};

verus! {

/// A test on the facts of a target: its hostname and operating system.
#[derive(Debug)]
pub enum Condition {
    Always,
    Never,
    Hostname(String),
    Os(OsType),
    Vendor(String),
    Version(String),
    Not(Box<Condition>),
    All(Box<Condition>, Box<Condition>),
    Any(Box<Condition>, Box<Condition>),
}

impl Condition {
    /// Whether the condition holds on `t`.
    pub open spec fn holds(&self, t: Target) -> bool
        decreases self,
    {
        match self {
            Condition::Always => true,
            Condition::Never => false,
            Condition::Hostname(h) => t.hostname@ == h@,
            Condition::Os(o) => t.os@.os_type == *o,
            Condition::Vendor(v) => t.os@.vendor == v@,
            Condition::Version(v) => t.os@.version == v@,
            Condition::Not(c) => !c.holds(t),
            Condition::All(a, b) => a.holds(t) && b.holds(t),
            Condition::Any(a, b) => a.holds(t) || b.holds(t),
        }
    }

    /// Evaluates the condition on `target`.
    pub fn check(&self, target: &Target) -> (r: bool)
        ensures
            r == self.holds(*target),
        decreases self,
    {
        match self {
            Condition::Always => true,
            Condition::Never => false,
            Condition::Hostname(h) => target.hostname == *h,
            Condition::Os(o) => target.os().os_type() == *o,
            Condition::Vendor(v) => {
                let vendor = target.os().vendor().to_owned();
                vendor == *v
            },
            Condition::Version(v) => {
                let version = target.os().version().to_owned();
                version == *v
            },
            Condition::Not(c) => !c.check(target),
            Condition::All(a, b) => a.check(target) && b.check(target),
            Condition::Any(a, b) => a.check(target) || b.check(target),
        }
    }
}

/// A test on the outcome of a dependency. These four are every test an
/// outcome with two values admits.
#[derive(Clone, Copy, Debug, PartialEq, Eq, Structural)]
pub enum StatusCondition {
    Always,
    Never,
    IfChanged,
    IfNotChanged,
}

impl StatusCondition {
    pub open spec fn holds(self, s: ApplyStatus) -> bool {
        match self {
            StatusCondition::Always => true,
            StatusCondition::Never => false,
            StatusCondition::IfChanged => s == ApplyStatus::Changed,
            StatusCondition::IfNotChanged => s == ApplyStatus::NotChanged,
        }
    }

    pub fn check(self, s: ApplyStatus) -> (r: bool)
        ensures
            r == self.holds(s),
    {
        match self {
            StatusCondition::Always => true,
            StatusCondition::Never => false,
            StatusCondition::IfChanged => s == ApplyStatus::Changed,
            StatusCondition::IfNotChanged => s == ApplyStatus::NotChanged,
        }
    }
}

} // verus!
