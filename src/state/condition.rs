use vstd::prelude::*;

use crate::executor::Executor;
use crate::predicate::Condition;
use crate::state::State;
use crate::status::{combine, ApplyError, ApplyStatus};
use crate::target::Target;

verus! {

/// A multi-branch conditional: every branch whose condition holds is applied,
/// in order, and their outcomes fold together. When no condition holds, the
/// fallback (if any) is applied instead.
pub struct CondState<S> {
    pub not_applied: Option<S>,
    pub conditions: Vec<(S, Condition)>,
}

impl<S: State> CondState<S> {
    pub fn new() -> (r: CondState<S>)
        ensures
            r.conditions@.len() == 0,
            r.not_applied is None,
    {
        CondState { not_applied: None, conditions: Vec::new() }
    }

    /// Adds a branch: `state` is applied if `cond` holds.
    pub fn apply_if(self, state: S, cond: Condition) -> (r: CondState<S>)
        ensures
            r.conditions@ == self.conditions@.push((state, cond)),
            r.not_applied == self.not_applied,
    {
        let mut r = self;
        r.conditions.push((state, cond));
        r
    }

    /// Sets the state applied when no branch condition holds.
    pub fn not_applied(self, state: S) -> (r: CondState<S>)
        ensures
            r.conditions == self.conditions,
            r.not_applied == Some(state),
    {
        let mut r = self;
        r.not_applied = Some(state);
        r
    }

    /// Whether applying the branches from the `i`-th on, with `acc` folded
    /// from the earlier ones that ran (`None` if none ran), may take the
    /// journal from `before` to `after` with outcome `r`.
    pub open spec fn run_branches(
        &self,
        target: Target,
        i: int,
        before: Seq<Seq<char>>,
        after: Seq<Seq<char>>,
        acc: Option<ApplyStatus>,
        r: Result<Option<ApplyStatus>, ApplyError>,
    ) -> bool
        decreases self.conditions@.len() - i,
    {
        if i < 0 || i >= self.conditions@.len() {
            after == before && r == Ok::<Option<ApplyStatus>, ApplyError>(acc)
        } else if !self.conditions@[i].1.holds(target) {
            self.run_branches(target, i + 1, before, after, acc, r)
        } else {
            exists|mid: Seq<Seq<char>>, rs: Result<ApplyStatus, ApplyError>|
                #[trigger] self.conditions@[i].0.run(target, before, mid, rs) && match rs {
                    Err(e) => after == mid && r == Err::<Option<ApplyStatus>, ApplyError>(e),
                    Ok(s) => self.run_branches(
                        target,
                        i + 1,
                        mid,
                        after,
                        Some(combine(s, acc.unwrap_or(ApplyStatus::NotChanged))),
                        r,
                    ),
                }
        }
    }

    /// The names of the first `n` branches, each followed by " / ".
    pub open spec fn branch_labels(&self, n: int) -> Seq<char>
        decreases n,
    {
        if n <= 0 {
            Seq::empty()
        } else {
            self.branch_labels(n - 1) + self.conditions@[n - 1].0.label() + " / "@
        }
    }

    fn apply_branches(
        &self,
        i: usize,
        executor: &mut Executor,
        target: &Target,
        acc: Option<ApplyStatus>,
    ) -> (r: Result<Option<ApplyStatus>, ApplyError>)
        requires
            i <= self.conditions@.len(),
        ensures
            self.run_branches(*target, i as int, old(executor)@, final(executor)@, acc, r),
        decreases self.conditions@.len() - i,
    {
        if i >= self.conditions.len() {
            return Ok(acc);
        }
        if !self.conditions[i].1.check(target) {
            return self.apply_branches(i + 1, executor, target, acc);
        }
        let ghost before = executor@;
        let rs = self.conditions[i].0.apply(executor, target);
        let ghost mid = executor@;
        assert(self.conditions@[i as int].0.run(*target, before, mid, rs));
        match rs {
            Err(e) => Err(e),
            Ok(s) => {
                let prev = match acc {
                    Some(a) => a,
                    None => ApplyStatus::NotChanged,
                };
                self.apply_branches(i + 1, executor, target, Some(s.add(prev)))
            },
        }
    }
}

impl<S: State> State for CondState<S> {
    open spec fn run(
        &self,
        target: Target,
        before: Seq<Seq<char>>,
        after: Seq<Seq<char>>,
        r: Result<ApplyStatus, ApplyError>,
    ) -> bool {
        exists|mid: Seq<Seq<char>>, rb: Result<Option<ApplyStatus>, ApplyError>|
            #[trigger] self.run_branches(target, 0, before, mid, None, rb) && match rb {
                Err(e) => after == mid && r == Err::<ApplyStatus, ApplyError>(e),
                Ok(Some(s)) => after == mid && r == Ok::<ApplyStatus, ApplyError>(s),
                Ok(None) => match self.not_applied {
                    Some(f) => f.run(target, mid, after, r),
                    None => after == mid && r == Ok::<ApplyStatus, ApplyError>(
                        ApplyStatus::NotChanged,
                    ),
                },
            }
    }

    open spec fn label(&self) -> Seq<char> {
        self.branch_labels(self.conditions@.len() as int) + match self.not_applied {
            Some(f) => " - "@ + f.label(),
            None => Seq::empty(),
        }
    }

    fn apply(&self, executor: &mut Executor, target: &Target) -> (r: Result<ApplyStatus, ApplyError>) {
        let ghost before = executor@;
        let rb = self.apply_branches(0, executor, target, None);
        let ghost mid = executor@;
        assert(self.run_branches(*target, 0, before, mid, None, rb));
        match rb {
            Err(e) => Err(e),
            Ok(Some(s)) => Ok(s),
            Ok(None) => match &self.not_applied {
                Some(f) => f.apply(executor, target),
                None => Ok(ApplyStatus::NotChanged),
            },
        }
    }

    fn name(&self) -> (r: String) {
        let mut ret = String::new();
        let mut i: usize = 0;
        while i < self.conditions.len()
            invariant
                i <= self.conditions@.len(),
                ret@ == self.branch_labels(i as int),
            decreases self.conditions@.len() - i,
        {
            let n = self.conditions[i].0.name();
            ret.append(n.as_str());
            ret.append(" / ");
            proof { reveal_strlit(" / "); }
            assert(ret@ =~= self.branch_labels(i + 1));
            i = i + 1;
        }
        match &self.not_applied {
            Some(f) => {
                ret.append(" - ");
                let n = f.name();
                ret.append(n.as_str());
                proof { reveal_strlit(" - "); }
                assert(ret@ =~= self.label());
            },
            None => {
                assert(ret@ =~= self.label());
            },
        }
        ret
    }
}

} // verus!
