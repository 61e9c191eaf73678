//! The services that a node of the cluster can run.
use vstd::prelude::*;
use vstd::string::*;
use crate::text::{owned, same_text};

verus! {

#[derive(Debug, Clone, PartialEq, Eq)]
pub enum ServiceType {
    MEMD,
    MGMT,
    QUERY,
    SEARCH,
    ANALYTICS,
    INDEX,
    EVENTING,
    /// A service this crate has no name for.
    Other(String),
}

impl ServiceType {
    pub open spec fn text(&self) -> Seq<char> {
        match self {
            ServiceType::MEMD => "memd"@,
            ServiceType::MGMT => "mgmt"@,
            ServiceType::QUERY => "query"@,
            ServiceType::SEARCH => "search"@,
            ServiceType::ANALYTICS => "analytics"@,
            ServiceType::INDEX => "index"@,
            ServiceType::EVENTING => "eventing"@,
            ServiceType::Other(name) => name@,
        }
    }

    /// How the service reads.
    pub fn message(&self) -> (r: String)
        ensures
            r@ == self.text(),
    {
        match self {
            ServiceType::MEMD => owned("memd"),
            ServiceType::MGMT => owned("mgmt"),
            ServiceType::QUERY => owned("query"),
            ServiceType::SEARCH => owned("search"),
            ServiceType::ANALYTICS => owned("analytics"),
            ServiceType::INDEX => owned("index"),
            ServiceType::EVENTING => owned("eventing"),
            ServiceType::Other(name) => name.clone(),
        }
    }
}

impl ServiceType {
    /// Whether both are the same service.
    pub open spec fn same_as(&self, other: &ServiceType) -> bool {
        match (*self, *other) {
            (ServiceType::MEMD, ServiceType::MEMD) => true,
            (ServiceType::MGMT, ServiceType::MGMT) => true,
            (ServiceType::QUERY, ServiceType::QUERY) => true,
            (ServiceType::SEARCH, ServiceType::SEARCH) => true,
            (ServiceType::ANALYTICS, ServiceType::ANALYTICS) => true,
            (ServiceType::INDEX, ServiceType::INDEX) => true,
            (ServiceType::EVENTING, ServiceType::EVENTING) => true,
            (ServiceType::Other(a), ServiceType::Other(b)) => a@ == b@,
            _ => false,
        }
    }

    pub fn same(&self, other: &ServiceType) -> (r: bool)
        ensures
            r == self.same_as(other),
    {
        match (self, other) {
            (ServiceType::MEMD, ServiceType::MEMD) => true,
            (ServiceType::MGMT, ServiceType::MGMT) => true,
            (ServiceType::QUERY, ServiceType::QUERY) => true,
            (ServiceType::SEARCH, ServiceType::SEARCH) => true,
            (ServiceType::ANALYTICS, ServiceType::ANALYTICS) => true,
            (ServiceType::INDEX, ServiceType::INDEX) => true,
            (ServiceType::EVENTING, ServiceType::EVENTING) => true,
            (ServiceType::Other(a), ServiceType::Other(b)) => same_text(a.as_str(), b.as_str()),
            _ => false,
        }
    }
}

/// Two services are the same exactly where they read the same, a service by a
/// name of its own aside: that name may be any text.
pub proof fn a_service_is_known_by_how_it_reads(a: ServiceType, b: ServiceType)
    ensures
        a.same_as(&a),
        a.same_as(&b) ==> b.same_as(&a) && a.text() == b.text(),
        (a is Other) == (b is Other) ==> (a.same_as(&b) <==> a.text() == b.text()),
        a is MEMD ==> a.text() == seq!['m', 'e', 'm', 'd'],
        a is MGMT ==> a.text() == seq!['m', 'g', 'm', 't'],
        a is QUERY ==> a.text() == seq!['q', 'u', 'e', 'r', 'y'],
        a is SEARCH ==> a.text() == seq!['s', 'e', 'a', 'r', 'c', 'h'],
        a is ANALYTICS ==> a.text() == seq!['a', 'n', 'a', 'l', 'y', 't', 'i', 'c', 's'],
        a is INDEX ==> a.text() == seq!['i', 'n', 'd', 'e', 'x'],
        a is EVENTING ==> a.text() == seq!['e', 'v', 'e', 'n', 't', 'i', 'n', 'g'],
{
    reveal_strlit("memd");
    reveal_strlit("mgmt");
    reveal_strlit("query");
    reveal_strlit("search");
    reveal_strlit("analytics");
    reveal_strlit("index");
    reveal_strlit("eventing");
    assert("memd"@ =~= seq!['m', 'e', 'm', 'd']);
    assert("mgmt"@ =~= seq!['m', 'g', 'm', 't']);
    assert("query"@ =~= seq!['q', 'u', 'e', 'r', 'y']);
    assert("search"@ =~= seq!['s', 'e', 'a', 'r', 'c', 'h']);
    assert("analytics"@ =~= seq!['a', 'n', 'a', 'l', 'y', 't', 'i', 'c', 's']);
    assert("index"@ =~= seq!['i', 'n', 'd', 'e', 'x']);
    assert("eventing"@ =~= seq!['e', 'v', 'e', 'n', 't', 'i', 'n', 'g']);
    assert("memd"@[0] == 'm' && "mgmt"@[0] == 'm' && "query"@[0] == 'q' && "search"@[0] == 's'
        && "analytics"@[0] == 'a' && "index"@[0] == 'i' && "eventing"@[0] == 'e');
    assert("memd"@[1] != "mgmt"@[1]);
}

} // verus!
