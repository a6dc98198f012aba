use vstd::prelude::*;

verus! {

/// Outcome of applying a state: whether anything on the target changed.
#[derive(Clone, Copy, Debug, PartialEq, Eq, Structural)]
pub enum ApplyStatus {
    Changed,
    NotChanged,
}

/// `Changed` absorbs, `NotChanged` is the identity.
pub open spec fn combine(a: ApplyStatus, b: ApplyStatus) -> ApplyStatus {
    if a == ApplyStatus::Changed || b == ApplyStatus::Changed {
        ApplyStatus::Changed
    } else {
        ApplyStatus::NotChanged
    }
}

impl ApplyStatus {
    /// Combines two outcomes: changed if either one changed.
    pub fn add(self, rhs: ApplyStatus) -> (r: ApplyStatus)
        ensures
            r == combine(self, rhs),
    {
        if self == ApplyStatus::Changed || rhs == ApplyStatus::Changed {
            ApplyStatus::Changed
        } else {
            ApplyStatus::NotChanged
        }
    }
}

/// Why applying a state failed: a message naming the state.
#[derive(Clone, Debug, PartialEq, Eq)]
pub struct ApplyError(String);

impl ApplyError {
    pub fn new(message: String) -> (r: ApplyError)
        ensures
            r.message_view() == message@,
    {
        ApplyError(message)
    }

    pub closed spec fn message_view(&self) -> Seq<char> {
        self.0@
    }

    pub fn message(&self) -> (r: &str)
        ensures
            r@ == self.message_view(),
    {
        self.0.as_str()
    }

    /// The error as text: "Error executing " and the message.
    pub fn to_string(&self) -> (r: String)
        ensures
            r@ == "Error executing "@ + self.message_view(),
    {
        let mut r = String::from_str("Error executing ");
        r.append(self.0.as_str());
        proof {
            reveal_strlit("Error executing ");
        }
        r
    }
}

/// How an outcome and a later one fold together, failure first.
pub open spec fn fold_results(
    l: Result<ApplyStatus, ApplyError>,
    r: Result<ApplyStatus, ApplyError>,
) -> Result<ApplyStatus, ApplyError> {
    match l {
        Err(e) => Err(e),
        Ok(a) => match r {
            Err(e) => Err(e),
            Ok(b) => Ok(combine(a, b)),
        },
    }
}

/// Combining outcomes is commutative and associative, `NotChanged` is its
/// identity and `Changed` absorbs everything.
pub proof fn lemma_combine_laws(a: ApplyStatus, b: ApplyStatus, c: ApplyStatus)
    ensures
        combine(a, b) == combine(b, a),
        combine(combine(a, b), c) == combine(a, combine(b, c)),
        combine(a, ApplyStatus::NotChanged) == a,
        combine(ApplyStatus::NotChanged, ApplyStatus::NotChanged) == ApplyStatus::NotChanged,
        combine(a, ApplyStatus::Changed) == ApplyStatus::Changed,
        combine(a, a) == a,
{
}

} // verus!
