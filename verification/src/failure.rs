//! What another service of the cluster, or the HTTP layer, said when it
//! failed.
use vstd::prelude::*;
use crate::text::{opt_text, same_opt_text, same_text};

verus! {

/// A failure that this crate reports and does not look into: how it reads, the
/// name it is counted under, and the text of the error underneath where there
/// is one.
#[derive(Debug, Clone, PartialEq, Eq)]
pub struct ServiceFailure {
    pub text: String,
    pub metrics_name: String,
    pub source: Option<String>,
}

impl ServiceFailure {
    /// Whether both say the same.
    pub open spec fn same_as(&self, other: &ServiceFailure) -> bool {
        &&& self.text@ == other.text@
        &&& self.metrics_name@ == other.metrics_name@
        &&& opt_text(self.source) == opt_text(other.source)
    }

    pub fn same(&self, other: &ServiceFailure) -> (r: bool)
        ensures
            r == self.same_as(other),
    {
        same_text(self.text.as_str(), other.text.as_str()) && same_text(
            self.metrics_name.as_str(),
            other.metrics_name.as_str(),
        ) && same_opt_text(&self.source, &other.source)
    }
}

/// Two failures are the same only where they say and are counted the same, and
/// have the same error underneath.
pub proof fn a_service_failure_is_the_same_in_every_word(a: ServiceFailure, b: ServiceFailure)
    ensures
        a.same_as(&b) ==> a.text@ == b.text@ && a.metrics_name@ == b.metrics_name@,
        a.same_as(&b) ==> (a.source is Some <==> b.source is Some),
        a.same_as(&b) && a.source is Some ==> a.source->0@ == b.source->0@,
        a.same_as(&a),
{
}

} // verus!
