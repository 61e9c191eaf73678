//! The errors that this crate reports.
use std::sync::Arc;
use vstd::prelude::*;
use vstd::string::*;
use crate::failure::ServiceFailure;
use crate::indexerx;
use crate::indexrouter::RouteError;
use crate::memdx;
use crate::retry::RetryRequest;
use crate::service_type::ServiceType;
use crate::string_map::{distinct_keys, lemma_map_of, listed_at, map_of, StringMap};
use crate::text::{
    decimal, less_text, opt_text, owned, push_decimal, same_opt_text, same_text, text_less,
    text_less_is_total, text_less_is_transitive,
};

verus! {

/// What went wrong, with what is known of the retries before it gave up.
#[derive(Debug)]
pub struct Error {
    kind: Arc<ErrorKind>,
    retry_info: Option<RetryRequest>,
}

impl Clone for Error {
    fn clone(&self) -> (r: Error)
        ensures
            r == *self,
    {
        Error {
            kind: self.kind.clone(),
            retry_info: match &self.retry_info {
                Some(retry) => Some(retry.clone()),
                None => None,
            },
        }
    }
}

#[derive(Debug)]
#[non_exhaustive]
pub enum ErrorKind {
    Memdx(MemdxError),
    Analytics(ServiceFailure),
    Query(ServiceFailure),
    Search(ServiceFailure),
    Http(ServiceFailure),
    Mgmt(ServiceFailure),
    Indexer(indexerx::error::Error),
    /// A scan could not be routed to an indexer: a disagreement between the
    /// index topology this client holds and the cluster.
    IndexRouting(RouteError),
    VbucketMapOutdated,
    InvalidArgument { msg: String, arg: Option<String> },
    EndpointNotKnown { endpoint: String },
    InvalidVbucket { requested_vb_id: u16, num_vbuckets: usize },
    InvalidReplica { requested_replica: u32, num_servers: usize },
    NoEndpointsAvailable,
    Shutdown,
    NoBucket,
    IllegalState { msg: String },
    NoVbucketMap,
    NoServerAssigned { requested_vb_id: u16 },
    CollectionManifestOutdated { manifest_uid: u64, server_manifest_uid: u64 },
    Message { msg: String },
    ServiceNotAvailable { service: ServiceType },
    FeatureNotAvailable { feature: String, msg: String },
    Compression { msg: String },
    Internal { msg: String },
    /// Every endpoint an agent was given failed to supply a cluster config.
    BootstrapAllFailed { errors: BootstrapFailures },
    /// An operation could not get a connection to a key-value endpoint.
    ConnectFailed { endpoint: String, source: ConnectAttemptFailure },
}

/// What each endpoint said when none of them could supply a cluster config.
/// The endpoints are kept in the order of their names, so the same set of
/// failures reads the same way twice.
#[derive(Debug)]
pub struct BootstrapFailures {
    entries: Vec<(String, Error)>,
}

/// What a connect attempt said.
#[derive(Debug, Clone)]
pub struct ConnectAttemptFailure(Error);

/// A failed key-value operation and where it happened.
#[derive(Debug, PartialEq)]
pub struct MemdxError {
    inner: Box<InnerMemdxError>,
}

#[derive(Debug, PartialEq)]
pub struct InnerMemdxError {
    source: memdx::Error,
    dispatched_to: Option<String>,
    dispatched_from: Option<String>,
    doc_id: Option<Vec<u8>>,
    bucket_name: Option<String>,
    scope_name: Option<String>,
    collection_name: Option<String>,
}

impl Error {
    pub closed spec fn spec_kind(&self) -> ErrorKind {
        *self.kind
    }

    pub closed spec fn spec_retry_info(&self) -> Option<RetryRequest> {
        self.retry_info
    }

    /// How the error reads: its kind, and behind it the retries.
    pub open spec fn text(&self) -> Seq<char>
        decreases self,
    {
        match self.spec_retry_info() {
            Some(retry) => kind_text(self.spec_kind()) + ", "@ + retry.text(),
            None => kind_text(self.spec_kind()),
        }
    }
}

/// How a kind of error reads.
pub open spec fn kind_text(kind: ErrorKind) -> Seq<char>
    decreases kind,
{
    match kind {
        ErrorKind::VbucketMapOutdated => "vbucket map outdated"@,
        ErrorKind::InvalidArgument { msg, arg } => match arg {
            Some(arg) => "invalid argument "@ + arg@ + ": "@ + msg@,
            None => "invalid argument: "@ + msg@,
        },
        ErrorKind::Memdx(err) => err.text(),
        ErrorKind::Analytics(err) => err.text@,
        ErrorKind::Query(err) => err.text@,
        ErrorKind::Search(err) => err.text@,
        ErrorKind::Http(err) => err.text@,
        ErrorKind::Mgmt(err) => err.text@,
        ErrorKind::Indexer(err) => err.text(),
        ErrorKind::IndexRouting(err) => err.text(),
        ErrorKind::EndpointNotKnown { endpoint } => "endpoint not known: "@ + endpoint@,
        ErrorKind::NoEndpointsAvailable => "no endpoints available"@,
        ErrorKind::Shutdown => "shutdown"@,
        ErrorKind::NoBucket => "no bucket selected"@,
        ErrorKind::IllegalState { msg } => "illegal state: "@ + msg@,
        ErrorKind::NoVbucketMap => "invalid vbucket map"@,
        ErrorKind::BootstrapAllFailed { errors } => "all bootstrap hosts failed ("@
            + failures_text(errors.spec_entries(), errors.spec_entries()@.len()) + ")"@,
        ErrorKind::ConnectFailed { endpoint, source } => "could not connect to "@ + endpoint@
            + ": "@ + source.spec_cause().text(),
        ErrorKind::CollectionManifestOutdated { manifest_uid, server_manifest_uid } => {
            "collection manifest outdated: our manifest uid: "@ + decimal(manifest_uid as nat)
                + ", server manifest uid: "@ + decimal(server_manifest_uid as nat)
        },
        ErrorKind::Message { msg } => msg@,
        ErrorKind::ServiceNotAvailable { service } => "service not available: "@ + service.text(),
        ErrorKind::FeatureNotAvailable { feature, msg } => "feature not available: "@ + feature@
            + ", "@ + msg@,
        ErrorKind::Internal { msg } => "internal error: "@ + msg@,
        ErrorKind::NoServerAssigned { requested_vb_id } => "no server assigned for vbucket id: "@
            + decimal(requested_vb_id as nat),
        ErrorKind::InvalidVbucket { requested_vb_id, num_vbuckets } => "invalid vbucket id: "@
            + decimal(requested_vb_id as nat) + ", num vbuckets: "@ + decimal(num_vbuckets as nat),
        ErrorKind::InvalidReplica { requested_replica, num_servers } => "invalid replica: "@
            + decimal(requested_replica as nat) + ", num servers: "@ + decimal(num_servers as nat),
        ErrorKind::Compression { msg } => "compression error: "@ + msg@,
    }
}

/// How the first `n` failures read: each endpoint with what it said in braces,
/// and a comma between each two.
pub open spec fn failures_text(entries: Vec<(String, Error)>, n: nat) -> Seq<char>
    decreases entries, n,
{
    if n == 0 || n > entries@.len() {
        Seq::empty()
    } else {
        let one = entries[n - 1].0@ + ": {"@ + entries[n - 1].1.text() + "}"@;
        if n == 1 {
            one
        } else {
            failures_text(entries, (n - 1) as nat) + ", "@ + one
        }
    }
}

impl Error {
    pub fn new(kind: ErrorKind) -> (r: Self)
        ensures
            r.spec_kind() == kind,
            r.spec_retry_info() is None,
    {
        Error { kind: Arc::new(kind), retry_info: None }
    }

    pub fn new_contextual_memdx_error(e: MemdxError) -> (r: Self)
        ensures
            r.spec_kind() == ErrorKind::Memdx(e),
            r.spec_retry_info() is None,
    {
        Error::new(ErrorKind::Memdx(e))
    }

    /// None of the endpoints supplied a cluster config; each with what it said.
    pub fn new_bootstrap_all_failed_error(errors: StringMap<Error>) -> (r: Self)
        ensures
            r.spec_kind() matches ErrorKind::BootstrapAllFailed { errors: failures }
                && failures@ == errors@,
            r.spec_retry_info() is None,
    {
        Error::new(ErrorKind::BootstrapAllFailed { errors: BootstrapFailures::new(errors) })
    }

    /// A connect failure against `endpoint`, carrying what the attempt said.
    pub fn new_connect_failed_error(endpoint: &str, cause: Error) -> (r: Self)
        ensures
            r.spec_kind() matches ErrorKind::ConnectFailed { endpoint: e, source } && e@
                == endpoint@ && source.spec_cause() == cause,
            r.spec_retry_info() is None,
    {
        Error::new(
            ErrorKind::ConnectFailed {
                endpoint: owned(endpoint),
                source: ConnectAttemptFailure::new(cause),
            },
        )
    }

    pub fn new_message_error(msg: &str) -> (r: Self)
        ensures
            r.spec_kind() matches ErrorKind::Message { msg: m } && m@ == msg@,
            r.spec_retry_info() is None,
    {
        Error::new(ErrorKind::Message { msg: owned(msg) })
    }

    pub fn new_invalid_argument_error(msg: &str, arg: Option<String>) -> (r: Self)
        ensures
            r.spec_kind() matches ErrorKind::InvalidArgument { msg: m, arg: a } && m@ == msg@ && a
                == arg,
            r.spec_retry_info() is None,
    {
        Error::new(ErrorKind::InvalidArgument { msg: owned(msg), arg })
    }

    pub fn new_feature_not_available_error(feature: &str, msg: &str) -> (r: Self)
        ensures
            r.spec_kind() matches ErrorKind::FeatureNotAvailable { feature: f, msg: m } && f@
                == feature@ && m@ == msg@,
            r.spec_retry_info() is None,
    {
        Error::new(ErrorKind::FeatureNotAvailable { feature: owned(feature), msg: owned(msg) })
    }

    pub fn kind(&self) -> (r: &ErrorKind)
        ensures
            *r == self.spec_kind(),
    {
        &self.kind
    }

    /// The failed key-value operation, where that is what this is.
    pub fn is_memdx_error(&self) -> (r: Option<&memdx::Error>)
        ensures
            r == (match self.spec_kind() {
                ErrorKind::Memdx(err) => Some(&err.spec_source()),
                _ => None,
            }),
    {
        match &*self.kind {
            ErrorKind::Memdx(err) => Some(err.memdx_error()),
            _ => None,
        }
    }

    pub fn set_retry_info(&mut self, retry_info: RetryRequest)
        ensures
            final(self).spec_kind() == old(self).spec_kind(),
            final(self).spec_retry_info() == Some(retry_info),
    {
        self.retry_info = Some(retry_info);
    }

    pub fn retry_info(&self) -> (r: Option<&RetryRequest>)
        ensures
            r == (match self.spec_retry_info() {
                Some(retry) => Some(&retry),
                None => None,
            }),
    {
        self.retry_info.as_ref()
    }

    /// How the error reads.
    pub fn message(&self) -> (r: String)
        ensures
            r@ == self.text(),
        decreases self,
    {
        let mut r: String = self.kind.message();
        match &self.retry_info {
            Some(retry) => {
                r.append(", ");
                r.append(retry.message().as_str());
            },
            None => {},
        }
        r
    }

    /// The text of the error underneath: that of the service that failed, or
    /// for a failed connect what the attempt said.
    pub open spec fn source_text(&self) -> Option<Seq<char>> {
        match self.spec_kind() {
            ErrorKind::Memdx(err) => opt_text(err.spec_source().source),
            ErrorKind::Query(err) => opt_text(err.source),
            ErrorKind::Search(err) => opt_text(err.source),
            ErrorKind::Http(err) => opt_text(err.source),
            ErrorKind::Mgmt(err) => opt_text(err.source),
            ErrorKind::Indexer(err) => err.source_text(),
            ErrorKind::ConnectFailed { endpoint: _, source } => Some(source.spec_cause().text()),
            _ => None,
        }
    }

    pub fn source(&self) -> (r: Option<String>)
        ensures
            opt_text(r) == self.source_text(),
    {
        match &*self.kind {
            ErrorKind::Memdx(err) => copied_text(&err.memdx_error().source),
            ErrorKind::Query(err) => copied_text(&err.source),
            ErrorKind::Search(err) => copied_text(&err.source),
            ErrorKind::Http(err) => copied_text(&err.source),
            ErrorKind::Mgmt(err) => copied_text(&err.source),
            ErrorKind::Indexer(err) => match err.source() {
                Some(s) => Some(s.clone()),
                None => None,
            },
            ErrorKind::ConnectFailed { endpoint: _, source } => Some(source.cause().message()),
            _ => None,
        }
    }

    /// The name the error is counted under.
    pub fn metrics_name(&self) -> (r: &str)
        ensures
            r@ == self.spec_kind().counted_as(),
    {
        self.kind.metrics_name()
    }
}

/// The same string again, where there is one.
pub fn copied_text(s: &Option<String>) -> (r: Option<String>)
    ensures
        r == *s,
{
    match s {
        Some(s) => Some(s.clone()),
        None => None,
    }
}

impl vstd::std_specs::convert::FromSpecImpl<ErrorKind> for Error {
    open spec fn obeys_from_spec() -> bool {
        true
    }

    closed spec fn from_spec(kind: ErrorKind) -> Error {
        Error { kind: Arc::new(kind), retry_info: None }
    }
}

impl From<ErrorKind> for Error {
    fn from(kind: ErrorKind) -> (r: Error)
        ensures
            r.spec_kind() == kind,
            r.spec_retry_info() is None,
    {
        Error { kind: Arc::new(kind), retry_info: None }
    }
}

impl vstd::std_specs::convert::FromSpecImpl<indexerx::error::Error> for Error {
    open spec fn obeys_from_spec() -> bool {
        true
    }

    closed spec fn from_spec(e: indexerx::error::Error) -> Error {
        Error { kind: Arc::new(ErrorKind::Indexer(e)), retry_info: None }
    }
}

impl From<indexerx::error::Error> for Error {
    fn from(e: indexerx::error::Error) -> (r: Error)
        ensures
            r.spec_kind() == ErrorKind::Indexer(e),
            r.spec_retry_info() is None,
    {
        Error { kind: Arc::new(ErrorKind::Indexer(e)), retry_info: None }
    }
}

impl vstd::std_specs::convert::FromSpecImpl<RouteError> for Error {
    open spec fn obeys_from_spec() -> bool {
        true
    }

    closed spec fn from_spec(e: RouteError) -> Error {
        Error { kind: Arc::new(ErrorKind::IndexRouting(e)), retry_info: None }
    }
}

impl From<RouteError> for Error {
    fn from(e: RouteError) -> (r: Error)
        ensures
            r.spec_kind() == ErrorKind::IndexRouting(e),
            r.spec_retry_info() is None,
    {
        Error { kind: Arc::new(ErrorKind::IndexRouting(e)), retry_info: None }
    }
}

/// The endpoints are listed in ascending order of their names.
pub open spec fn ascending(entries: Seq<(String, Error)>) -> bool {
    forall|i: int, j: int|
        0 <= i < j < entries.len() ==> text_less(
            (#[trigger] entries[i]).0@,
            (#[trigger] entries[j]).0@,
        )
}

proof fn lemma_ascending_distinct(entries: Seq<(String, Error)>)
    requires
        ascending(entries),
    ensures
        distinct_keys(entries),
{
    assert forall|i: int, j: int| 0 <= i < j < entries.len() implies (#[trigger] entries[i]).0@ != (
    #[trigger] entries[j]).0@ by {
        text_less_is_total(entries[i].0@, entries[j].0@);
    }
}

impl View for BootstrapFailures {
    type V = Map<Seq<char>, Error>;

    open spec fn view(&self) -> Map<Seq<char>, Error> {
        map_of(self.spec_entries()@)
    }
}

impl BootstrapFailures {
    pub closed spec fn spec_entries(&self) -> Vec<(String, Error)> {
        self.entries
    }

    #[verifier::type_invariant]
    closed spec fn well_formed(&self) -> bool {
        ascending(self.entries@)
    }

    /// The failures of these endpoints.
    pub fn new(errors: StringMap<Error>) -> (r: Self)
        ensures
            r@ == errors@,
    {
        let ghost all = errors.listing();
        let listed: Vec<(String, Error)> = errors.into_entries();
        let mut entries: Vec<(String, Error)> = Vec::new();
        proof {
            assert(all.take(0) =~= Seq::<(String, Error)>::empty());
        }
        for entry in it: listed
            invariant
                it.seq() == all,
                distinct_keys(all),
                ascending(entries@),
                map_of(entries@) == map_of(all.take(it.index() as int)),
        {
            let ghost i = it.index();
            proof {
                assert(all.take(i + 1).drop_last() =~= all.take(i as int));
                assert(all.take(i + 1).last() == entry);
                lemma_ascending_distinct(entries@);
                lemma_map_of(entries@);
                assert(distinct_keys(all.take(i as int)));
                lemma_map_of(all.take(i as int));
                assert forall|j: int| 0 <= j < entries@.len() implies (#[trigger] entries@[j]).0@
                    != entry.0@ by {
                    assert(map_of(entries@).contains_key(entries@[j].0@));
                    let k = choose|k: int| listed_at(all.take(i as int), entries@[j].0@, k);
                    assert(all[k].0@ != all[i as int].0@);
                }
            }
            insert_ascending(&mut entries, entry);
        }
        proof {
            assert(all.take(all.len() as int) =~= all);
        }
        BootstrapFailures { entries }
    }

    /// Why this endpoint failed, if it was one of those tried.
    pub fn get(&self, endpoint: &str) -> (r: Option<&Error>)
        ensures
            r == (if self@.contains_key(endpoint@) {
                Some(&self@[endpoint@])
            } else {
                None
            }),
    {
        proof {
            use_type_invariant(self);
            lemma_ascending_distinct(self.entries@);
            lemma_map_of(self.entries@);
        }
        let mut i: usize = 0;
        while i < self.entries.len()
            invariant
                i <= self.entries.len(),
                forall|j: int| 0 <= j < i ==> (#[trigger] self.entries@[j]).0@ != endpoint@,
                forall|j: int|
                    0 <= j < self.entries@.len() ==> self@.contains_key(
                        (#[trigger] self.entries@[j]).0@,
                    ) && self@[self.entries@[j].0@] == self.entries@[j].1,
            decreases self.entries.len() - i,
        {
            if same_text(self.entries[i].0.as_str(), endpoint) {
                return Some(&self.entries[i].1);
            }
            i += 1;
        }
        None
    }

    /// Every endpoint tried, with what it said, in the order of their names.
    pub fn iter(&self) -> (r: &[(String, Error)])
        ensures
            r@ == self.spec_entries()@,
            ascending(r@),
    {
        proof {
            use_type_invariant(self);
        }
        self.entries.as_slice()
    }

    pub fn len(&self) -> (r: usize)
        ensures
            self@.dom().finite(),
            r == self@.dom().len(),
    {
        proof {
            use_type_invariant(self);
            lemma_ascending_distinct(self.entries@);
            lemma_map_of(self.entries@);
        }
        self.entries.len()
    }

    pub fn is_empty(&self) -> (r: bool)
        ensures
            r == (self@.dom() == Set::<Seq<char>>::empty()),
    {
        proof {
            use_type_invariant(self);
            lemma_ascending_distinct(self.entries@);
            lemma_map_of(self.entries@);
            if self.entries@.len() > 0 {
                assert(self@.dom().contains(self.entries@[0].0@));
            } else {
                assert(self@.dom() =~= Set::<Seq<char>>::empty());
            }
        }
        self.entries.len() == 0
    }
}

fn insert_ascending(entries: &mut Vec<(String, Error)>, entry: (String, Error))
    requires
        ascending(old(entries)@),
        forall|j: int| 0 <= j < old(entries)@.len() ==> (#[trigger] old(entries)@[j]).0@ != entry.0@,
    ensures
        ascending(final(entries)@),
        map_of(final(entries)@) == map_of(old(entries)@).insert(entry.0@, entry.1),
{
    let ghost before = entries@;
    let mut p: usize = 0;
    while p < entries.len() && !less_text(entry.0.as_str(), entries[p].0.as_str())
        invariant
            entries@ == before,
            p <= entries.len(),
            forall|j: int| 0 <= j < p ==> !text_less(entry.0@, (#[trigger] before[j]).0@),
        decreases entries.len() - p,
    {
        p += 1;
    }
    let ghost put = entry;
    entries.insert(p, entry);
    proof {
        let after = entries@;
        assert(after == before.insert(p as int, put));
        assert forall|i: int, j: int| 0 <= i < j < after.len() implies text_less(
            (#[trigger] after[i]).0@,
            (#[trigger] after[j]).0@,
        ) by {
            if j < p {
                assert(text_less(before[i].0@, before[j].0@));
            } else if j == p {
                text_less_is_total(put.0@, before[i].0@);
            } else if i < p {
                assert(text_less(before[i].0@, before[j - 1].0@));
            } else if i == p {
                if j - 1 > p {
                    assert(text_less(before[p as int].0@, before[j - 1].0@));
                    text_less_is_transitive(put.0@, before[p as int].0@, before[j - 1].0@);
                }
            } else {
                assert(text_less(before[i - 1].0@, before[j - 1].0@));
            }
        }
        lemma_ascending_distinct(before);
        lemma_ascending_distinct(after);
        lemma_map_of(before);
        lemma_map_of(after);
        assert(map_of(after) =~= map_of(before).insert(put.0@, put.1)) by {
            assert forall|k: Seq<char>| map_of(after).contains_key(k) <==> map_of(before).insert(
                put.0@,
                put.1,
            ).contains_key(k) by {
                assert(after[p as int].0@ == put.0@);
                if map_of(after).contains_key(k) {
                    let i = choose|i: int| listed_at(after, k, i);
                    if i != p {
                        let i2 = if i < p { i } else { i - 1 };
                        assert(before[i2].0@ == k);
                    }
                }
                if map_of(before).contains_key(k) {
                    let i = choose|i: int| listed_at(before, k, i);
                    let i2 = if i < p { i } else { i + 1 };
                    assert(after[i2].0@ == k);
                }
            }
            assert forall|k: Seq<char>| map_of(after).contains_key(k) implies map_of(after)[k]
                == map_of(before).insert(put.0@, put.1)[k] by {
                let i = choose|i: int| listed_at(after, k, i);
                assert(after[i].0@ == k);
                if i != p {
                    let i2 = if i < p { i } else { i - 1 };
                    assert(before[i2].0@ == k);
                }
            }
        }
    }
}

impl vstd::std_specs::cmp::PartialEqSpecImpl for BootstrapFailures {
    open spec fn obeys_eq_spec() -> bool {
        true
    }

    open spec fn eq_spec(&self, other: &BootstrapFailures) -> bool {
        self@.dom() == other@.dom()
    }
}

/// Compares which endpoints failed, not what they said.
impl PartialEq for BootstrapFailures {
    fn eq(&self, other: &BootstrapFailures) -> (r: bool) {
        proof {
            use_type_invariant(self);
            use_type_invariant(other);
            lemma_ascending_distinct(self.entries@);
            lemma_ascending_distinct(other.entries@);
            lemma_map_of(self.entries@);
            lemma_map_of(other.entries@);
        }
        if self.entries.len() != other.entries.len() {
            return false;
        }
        let mut i: usize = 0;
        while i < self.entries.len()
            invariant
                i <= self.entries.len(),
                forall|j: int|
                    0 <= j < self.entries@.len() ==> self@.contains_key(
                        (#[trigger] self.entries@[j]).0@,
                    ),
                forall|j: int|
                    0 <= j < i ==> other@.contains_key((#[trigger] self.entries@[j]).0@),
            decreases self.entries.len() - i,
        {
            if other.get(self.entries[i].0.as_str()).is_none() {
                assert(self@.dom().contains(self.entries@[i as int].0@));
                assert(!other@.dom().contains(self.entries@[i as int].0@));
                return false;
            }
            i += 1;
        }
        proof {
            assert forall|k: Seq<char>| self@.dom().contains(k) implies other@.dom().contains(
                k,
            ) by {
                let j = choose|j: int| listed_at(self.entries@, k, j);
                assert(self.entries@[j].0@ == k);
            }
            vstd::set_lib::lemma_subset_equality(self@.dom(), other@.dom());
        }
        true
    }
}

impl ConnectAttemptFailure {
    pub closed spec fn spec_cause(&self) -> Error {
        self.0
    }

    pub fn new(cause: Error) -> (r: Self)
        ensures
            r.spec_cause() == cause,
    {
        ConnectAttemptFailure(cause)
    }

    /// What the attempt said.
    pub fn cause(&self) -> (r: &Error)
        ensures
            *r == self.spec_cause(),
    {
        &self.0
    }
}

impl vstd::std_specs::cmp::PartialEqSpecImpl for ConnectAttemptFailure {
    open spec fn obeys_eq_spec() -> bool {
        true
    }

    open spec fn eq_spec(&self, other: &ConnectAttemptFailure) -> bool {
        true
    }
}

/// The endpoint beside it decides, not the cause: two failures against the same
/// endpoint are the same failure however differently the attempts went.
impl PartialEq for ConnectAttemptFailure {
    fn eq(&self, other: &ConnectAttemptFailure) -> (r: bool) {
        true
    }
}

impl Clone for BootstrapFailures {
    fn clone(&self) -> (r: BootstrapFailures)
        ensures
            r@ == self@,
    {
        proof {
            use_type_invariant(self);
        }
        let mut entries: Vec<(String, Error)> = Vec::new();
        let mut i: usize = 0;
        while i < self.entries.len()
            invariant
                i <= self.entries.len(),
                entries@ == self.entries@.take(i as int),
            decreases self.entries.len() - i,
        {
            entries.push((self.entries[i].0.clone(), self.entries[i].1.clone()));
            assert(entries@ =~= self.entries@.take(i + 1));
            i += 1;
        }
        assert(entries@ =~= self.entries@);
        BootstrapFailures { entries }
    }
}

impl Default for BootstrapFailures {
    /// No endpoint was tried.
    fn default() -> (r: BootstrapFailures)
        ensures
            r@ == Map::<Seq<char>, Error>::empty(),
    {
        BootstrapFailures { entries: Vec::new() }
    }
}

impl ErrorKind {
    /// Whether both are the same kind of failure with the same detail. Failed
    /// connects are known by their endpoint, failed bootstraps by the endpoints
    /// that were tried: what an attempt said does not count.
    pub open spec fn same_as(&self, other: &ErrorKind) -> bool {
        match (*self, *other) {
            (ErrorKind::Memdx(a), ErrorKind::Memdx(b)) => a.same_as(&b),
            (ErrorKind::Analytics(a), ErrorKind::Analytics(b)) => a.same_as(&b),
            (ErrorKind::Query(a), ErrorKind::Query(b)) => a.same_as(&b),
            (ErrorKind::Search(a), ErrorKind::Search(b)) => a.same_as(&b),
            (ErrorKind::Http(a), ErrorKind::Http(b)) => a.same_as(&b),
            (ErrorKind::Mgmt(a), ErrorKind::Mgmt(b)) => a.same_as(&b),
            (ErrorKind::Indexer(a), ErrorKind::Indexer(b)) => a.spec_kind().same_as(&b.spec_kind()),
            (ErrorKind::IndexRouting(a), ErrorKind::IndexRouting(b)) => a.same_as(&b),
            (ErrorKind::VbucketMapOutdated, ErrorKind::VbucketMapOutdated) => true,
            (
                ErrorKind::InvalidArgument { msg: a, arg: x },
                ErrorKind::InvalidArgument { msg: b, arg: y },
            ) => a@ == b@ && opt_text(x) == opt_text(y),
            (
                ErrorKind::EndpointNotKnown { endpoint: a },
                ErrorKind::EndpointNotKnown { endpoint: b },
            ) => a@ == b@,
            (
                ErrorKind::InvalidVbucket { requested_vb_id: a, num_vbuckets: x },
                ErrorKind::InvalidVbucket { requested_vb_id: b, num_vbuckets: y },
            ) => a == b && x == y,
            (
                ErrorKind::InvalidReplica { requested_replica: a, num_servers: x },
                ErrorKind::InvalidReplica { requested_replica: b, num_servers: y },
            ) => a == b && x == y,
            (ErrorKind::NoEndpointsAvailable, ErrorKind::NoEndpointsAvailable) => true,
            (ErrorKind::Shutdown, ErrorKind::Shutdown) => true,
            (ErrorKind::NoBucket, ErrorKind::NoBucket) => true,
            (ErrorKind::IllegalState { msg: a }, ErrorKind::IllegalState { msg: b }) => a@ == b@,
            (ErrorKind::NoVbucketMap, ErrorKind::NoVbucketMap) => true,
            (
                ErrorKind::NoServerAssigned { requested_vb_id: a },
                ErrorKind::NoServerAssigned { requested_vb_id: b },
            ) => a == b,
            (
                ErrorKind::CollectionManifestOutdated { manifest_uid: a, server_manifest_uid: x },
                ErrorKind::CollectionManifestOutdated { manifest_uid: b, server_manifest_uid: y },
            ) => a == b && x == y,
            (ErrorKind::Message { msg: a }, ErrorKind::Message { msg: b }) => a@ == b@,
            (
                ErrorKind::ServiceNotAvailable { service: a },
                ErrorKind::ServiceNotAvailable { service: b },
            ) => a.same_as(&b),
            (
                ErrorKind::FeatureNotAvailable { feature: a, msg: x },
                ErrorKind::FeatureNotAvailable { feature: b, msg: y },
            ) => a@ == b@ && x@ == y@,
            (ErrorKind::Compression { msg: a }, ErrorKind::Compression { msg: b }) => a@ == b@,
            (ErrorKind::Internal { msg: a }, ErrorKind::Internal { msg: b }) => a@ == b@,
            (
                ErrorKind::BootstrapAllFailed { errors: a },
                ErrorKind::BootstrapAllFailed { errors: b },
            ) => a@.dom() == b@.dom(),
            (
                ErrorKind::ConnectFailed { endpoint: a, source: _ },
                ErrorKind::ConnectFailed { endpoint: b, source: _ },
            ) => a@ == b@,
            _ => false,
        }
    }
}

impl vstd::std_specs::cmp::PartialEqSpecImpl for ErrorKind {
    open spec fn obeys_eq_spec() -> bool {
        true
    }

    open spec fn eq_spec(&self, other: &ErrorKind) -> bool {
        self.same_as(other)
    }
}

impl PartialEq for ErrorKind {
    fn eq(&self, other: &ErrorKind) -> (r: bool) {
        match (self, other) {
            (ErrorKind::Memdx(a), ErrorKind::Memdx(b)) => a.same(b),
            (ErrorKind::Analytics(a), ErrorKind::Analytics(b)) => a.same(b),
            (ErrorKind::Query(a), ErrorKind::Query(b)) => a.same(b),
            (ErrorKind::Search(a), ErrorKind::Search(b)) => a.same(b),
            (ErrorKind::Http(a), ErrorKind::Http(b)) => a.same(b),
            (ErrorKind::Mgmt(a), ErrorKind::Mgmt(b)) => a.same(b),
            (ErrorKind::Indexer(a), ErrorKind::Indexer(b)) => *a == *b,
            (ErrorKind::IndexRouting(a), ErrorKind::IndexRouting(b)) => a.same(b),
            (ErrorKind::VbucketMapOutdated, ErrorKind::VbucketMapOutdated) => true,
            (
                ErrorKind::InvalidArgument { msg: a, arg: x },
                ErrorKind::InvalidArgument { msg: b, arg: y },
            ) => same_text(a.as_str(), b.as_str()) && same_opt_text(x, y),
            (
                ErrorKind::EndpointNotKnown { endpoint: a },
                ErrorKind::EndpointNotKnown { endpoint: b },
            ) => same_text(a.as_str(), b.as_str()),
            (
                ErrorKind::InvalidVbucket { requested_vb_id: a, num_vbuckets: x },
                ErrorKind::InvalidVbucket { requested_vb_id: b, num_vbuckets: y },
            ) => *a == *b && *x == *y,
            (
                ErrorKind::InvalidReplica { requested_replica: a, num_servers: x },
                ErrorKind::InvalidReplica { requested_replica: b, num_servers: y },
            ) => *a == *b && *x == *y,
            (ErrorKind::NoEndpointsAvailable, ErrorKind::NoEndpointsAvailable) => true,
            (ErrorKind::Shutdown, ErrorKind::Shutdown) => true,
            (ErrorKind::NoBucket, ErrorKind::NoBucket) => true,
            (
                ErrorKind::IllegalState { msg: a },
                ErrorKind::IllegalState { msg: b },
            ) => same_text(a.as_str(), b.as_str()),
            (ErrorKind::NoVbucketMap, ErrorKind::NoVbucketMap) => true,
            (
                ErrorKind::NoServerAssigned { requested_vb_id: a },
                ErrorKind::NoServerAssigned { requested_vb_id: b },
            ) => *a == *b,
            (
                ErrorKind::CollectionManifestOutdated { manifest_uid: a, server_manifest_uid: x },
                ErrorKind::CollectionManifestOutdated { manifest_uid: b, server_manifest_uid: y },
            ) => *a == *b && *x == *y,
            (
                ErrorKind::Message { msg: a },
                ErrorKind::Message { msg: b },
            ) => same_text(a.as_str(), b.as_str()),
            (
                ErrorKind::ServiceNotAvailable { service: a },
                ErrorKind::ServiceNotAvailable { service: b },
            ) => a.same(b),
            (
                ErrorKind::FeatureNotAvailable { feature: a, msg: x },
                ErrorKind::FeatureNotAvailable { feature: b, msg: y },
            ) => same_text(a.as_str(), b.as_str()) && same_text(x.as_str(), y.as_str()),
            (
                ErrorKind::Compression { msg: a },
                ErrorKind::Compression { msg: b },
            ) => same_text(a.as_str(), b.as_str()),
            (
                ErrorKind::Internal { msg: a },
                ErrorKind::Internal { msg: b },
            ) => same_text(a.as_str(), b.as_str()),
            (
                ErrorKind::BootstrapAllFailed { errors: a },
                ErrorKind::BootstrapAllFailed { errors: b },
            ) => *a == *b,
            (
                ErrorKind::ConnectFailed { endpoint: a, source: _ },
                ErrorKind::ConnectFailed { endpoint: b, source: _ },
            ) => same_text(a.as_str(), b.as_str()),
            _ => false,
        }
    }
}

/// Two failed connects are the same kind of failure exactly where they were
/// against the same endpoint, whatever the attempts said; and each still tells
/// what its own attempt said.
pub proof fn a_failed_connect_is_known_by_its_endpoint(e: Error, f: Error)
    requires
        e.spec_kind() is ConnectFailed,
        f.spec_kind() is ConnectFailed,
    ensures
        e.spec_kind().same_as(&f.spec_kind()) <==> e.spec_kind()->ConnectFailed_endpoint@
            == f.spec_kind()->ConnectFailed_endpoint@,
        e.source_text() == Some(e.spec_kind()->ConnectFailed_source.spec_cause().text()),
{
}

impl MemdxError {
    /// Whether both say the same of the same operation.
    pub open spec fn same_as(&self, other: &MemdxError) -> bool {
        &&& self.spec_source().same_as(&other.spec_source())
        &&& opt_text(self.spec_dispatched_to()) == opt_text(other.spec_dispatched_to())
        &&& opt_text(self.spec_dispatched_from()) == opt_text(other.spec_dispatched_from())
        &&& same_id(self.spec_doc_id(), other.spec_doc_id())
        &&& opt_text(self.spec_bucket_name()) == opt_text(other.spec_bucket_name())
        &&& opt_text(self.spec_scope_name()) == opt_text(other.spec_scope_name())
        &&& opt_text(self.spec_collection_name()) == opt_text(other.spec_collection_name())
    }

    pub fn same(&self, other: &MemdxError) -> (r: bool)
        ensures
            r == self.same_as(other),
    {
        let (a, b): (&InnerMemdxError, &InnerMemdxError) = (&*self.inner, &*other.inner);
        a.source.same(&b.source) && same_opt_text(&a.dispatched_to, &b.dispatched_to)
            && same_opt_text(&a.dispatched_from, &b.dispatched_from) && is_same_id(
            &a.doc_id,
            &b.doc_id,
        ) && same_opt_text(&a.bucket_name, &b.bucket_name) && same_opt_text(
            &a.scope_name,
            &b.scope_name,
        ) && same_opt_text(&a.collection_name, &b.collection_name)
    }
}

/// Whether both name the same document, or neither names one.
pub open spec fn same_id(a: Option<Vec<u8>>, b: Option<Vec<u8>>) -> bool {
    match (a, b) {
        (Some(a), Some(b)) => a@ == b@,
        (None, None) => true,
        _ => false,
    }
}

fn is_same_id(a: &Option<Vec<u8>>, b: &Option<Vec<u8>>) -> (r: bool)
    ensures
        r == same_id(*a, *b),
{
    match (a, b) {
        (Some(a), Some(b)) => same_bytes(a, b),
        (None, None) => true,
        _ => false,
    }
}

fn same_bytes(a: &Vec<u8>, b: &Vec<u8>) -> (r: bool)
    ensures
        r == (a@ == b@),
{
    if a.len() != b.len() {
        return false;
    }
    let mut i: usize = 0;
    while i < a.len()
        invariant
            i <= a.len(),
            a@.len() == b@.len(),
            forall|j: int| 0 <= j < i ==> a@[j] == b@[j],
        decreases a.len() - i,
    {
        if a[i] != b[i] {
            assert(a@[i as int] != b@[i as int]);
            return false;
        }
        i += 1;
    }
    assert(a@ =~= b@);
    true
}

impl ErrorKind {
    /// How the kind reads.
    pub fn message(&self) -> (r: String)
        ensures
            r@ == kind_text(*self),
        decreases self,
    {
        match self {
            ErrorKind::VbucketMapOutdated => owned("vbucket map outdated"),
            ErrorKind::InvalidArgument { msg, arg } => match arg {
                Some(arg) => {
                    let mut r: String = owned("invalid argument ");
                    r.append(arg.as_str());
                    r.append(": ");
                    r.append(msg.as_str());
                    r
                },
                None => owned("invalid argument: ").concat(msg.as_str()),
            },
            ErrorKind::Memdx(err) => err.message(),
            ErrorKind::Analytics(err) => err.text.clone(),
            ErrorKind::Query(err) => err.text.clone(),
            ErrorKind::Search(err) => err.text.clone(),
            ErrorKind::Http(err) => err.text.clone(),
            ErrorKind::Mgmt(err) => err.text.clone(),
            ErrorKind::Indexer(err) => err.message(),
            ErrorKind::IndexRouting(err) => err.message(),
            ErrorKind::EndpointNotKnown { endpoint } => owned("endpoint not known: ").concat(
                endpoint.as_str(),
            ),
            ErrorKind::NoEndpointsAvailable => owned("no endpoints available"),
            ErrorKind::Shutdown => owned("shutdown"),
            ErrorKind::NoBucket => owned("no bucket selected"),
            ErrorKind::IllegalState { msg } => owned("illegal state: ").concat(msg.as_str()),
            ErrorKind::NoVbucketMap => owned("invalid vbucket map"),
            ErrorKind::BootstrapAllFailed { errors } => {
                let mut r: String = owned("all bootstrap hosts failed (");
                let detail: String = failures_message(&errors.entries, errors.entries.len());
                r.append(detail.as_str());
                r.append(")");
                r
            },
            ErrorKind::ConnectFailed { endpoint, source } => {
                let mut r: String = owned("could not connect to ");
                r.append(endpoint.as_str());
                r.append(": ");
                r.append(source.0.message().as_str());
                r
            },
            ErrorKind::CollectionManifestOutdated { manifest_uid, server_manifest_uid } => {
                let mut r: String = owned("collection manifest outdated: our manifest uid: ");
                push_decimal(&mut r, *manifest_uid);
                r.append(", server manifest uid: ");
                push_decimal(&mut r, *server_manifest_uid);
                r
            },
            ErrorKind::Message { msg } => msg.clone(),
            ErrorKind::ServiceNotAvailable { service } => owned("service not available: ").concat(
                service.message().as_str(),
            ),
            ErrorKind::FeatureNotAvailable { feature, msg } => {
                let mut r: String = owned("feature not available: ");
                r.append(feature.as_str());
                r.append(", ");
                r.append(msg.as_str());
                r
            },
            ErrorKind::Internal { msg } => owned("internal error: ").concat(msg.as_str()),
            ErrorKind::NoServerAssigned { requested_vb_id } => {
                let mut r: String = owned("no server assigned for vbucket id: ");
                push_decimal(&mut r, *requested_vb_id as u64);
                r
            },
            ErrorKind::InvalidVbucket { requested_vb_id, num_vbuckets } => {
                let mut r: String = owned("invalid vbucket id: ");
                push_decimal(&mut r, *requested_vb_id as u64);
                r.append(", num vbuckets: ");
                push_decimal(&mut r, *num_vbuckets as u64);
                r
            },
            ErrorKind::InvalidReplica { requested_replica, num_servers } => {
                let mut r: String = owned("invalid replica: ");
                push_decimal(&mut r, *requested_replica as u64);
                r.append(", num servers: ");
                push_decimal(&mut r, *num_servers as u64);
                r
            },
            ErrorKind::Compression { msg } => owned("compression error: ").concat(msg.as_str()),
        }
    }

    pub open spec fn counted_as(&self) -> Seq<char> {
        match self {
            ErrorKind::Memdx(err) => err.spec_source().metrics_name@,
            ErrorKind::Analytics(err) => err.metrics_name@,
            ErrorKind::Query(err) => err.metrics_name@,
            ErrorKind::Search(err) => err.metrics_name@,
            ErrorKind::Http(err) => err.metrics_name@,
            ErrorKind::Mgmt(err) => err.metrics_name@,
            ErrorKind::Indexer(err) => err.spec_kind().counted_as(),
            ErrorKind::IndexRouting(_) => "IndexRouting"@,
            ErrorKind::ConnectFailed { endpoint: _, source: _ } => "ConnectFailed"@,
            ErrorKind::InvalidArgument { msg: _, arg: _ } => "InvalidArgument"@,
            ErrorKind::ServiceNotAvailable { service: _ } => "ServiceNotAvailable"@,
            ErrorKind::FeatureNotAvailable { feature: _, msg: _ } => "FeatureNotAvailable"@,
            ErrorKind::VbucketMapOutdated => "VBucketMapOutdated"@,
            ErrorKind::EndpointNotKnown { endpoint: _ } => "EndpointNotKnown"@,
            ErrorKind::InvalidVbucket { requested_vb_id: _, num_vbuckets: _ } => "InvalidVbucket"@,
            ErrorKind::InvalidReplica { requested_replica: _, num_servers: _ } => "InvalidReplica"@,
            ErrorKind::NoEndpointsAvailable => "NoEndpointsAvailable"@,
            ErrorKind::Shutdown => "Shutdown"@,
            ErrorKind::NoBucket => "NoBucket"@,
            ErrorKind::IllegalState { msg: _ } => "IllegalState"@,
            ErrorKind::NoVbucketMap => "NoVbucketMap"@,
            ErrorKind::BootstrapAllFailed { errors: _ } => "BootstrapAllFailed"@,
            ErrorKind::NoServerAssigned { requested_vb_id: _ } => "NoServerAssigned"@,
            ErrorKind::CollectionManifestOutdated { manifest_uid: _, server_manifest_uid: _ } => {
                "CollectionManifestOutdated"@
            },
            ErrorKind::Message { msg: _ } => "_OTHER"@,
            ErrorKind::Compression { msg: _ } => "Compression"@,
            ErrorKind::Internal { msg: _ } => "_OTHER"@,
        }
    }

    /// The name the error is counted under.
    pub fn metrics_name(&self) -> (r: &str)
        ensures
            r@ == self.counted_as(),
    {
        match self {
            ErrorKind::Memdx(err) => err.metrics_name(),
            ErrorKind::Analytics(err) => err.metrics_name.as_str(),
            ErrorKind::Query(err) => err.metrics_name.as_str(),
            ErrorKind::Search(err) => err.metrics_name.as_str(),
            ErrorKind::Http(err) => err.metrics_name.as_str(),
            ErrorKind::Mgmt(err) => err.metrics_name.as_str(),
            ErrorKind::Indexer(err) => err.metrics_name(),
            ErrorKind::IndexRouting(_) => "IndexRouting",
            ErrorKind::ConnectFailed { endpoint: _, source: _ } => "ConnectFailed",
            ErrorKind::InvalidArgument { msg: _, arg: _ } => "InvalidArgument",
            ErrorKind::ServiceNotAvailable { service: _ } => "ServiceNotAvailable",
            ErrorKind::FeatureNotAvailable { feature: _, msg: _ } => "FeatureNotAvailable",
            ErrorKind::VbucketMapOutdated => "VBucketMapOutdated",
            ErrorKind::EndpointNotKnown { endpoint: _ } => "EndpointNotKnown",
            ErrorKind::InvalidVbucket { requested_vb_id: _, num_vbuckets: _ } => "InvalidVbucket",
            ErrorKind::InvalidReplica { requested_replica: _, num_servers: _ } => "InvalidReplica",
            ErrorKind::NoEndpointsAvailable => "NoEndpointsAvailable",
            ErrorKind::Shutdown => "Shutdown",
            ErrorKind::NoBucket => "NoBucket",
            ErrorKind::IllegalState { msg: _ } => "IllegalState",
            ErrorKind::NoVbucketMap => "NoVbucketMap",
            ErrorKind::BootstrapAllFailed { errors: _ } => "BootstrapAllFailed",
            ErrorKind::NoServerAssigned { requested_vb_id: _ } => "NoServerAssigned",
            ErrorKind::CollectionManifestOutdated { manifest_uid: _, server_manifest_uid: _ } => {
                "CollectionManifestOutdated"
            },
            ErrorKind::Message { msg: _ } => "_OTHER",
            ErrorKind::Compression { msg: _ } => "Compression",
            ErrorKind::Internal { msg: _ } => "_OTHER",
        }
    }
}

fn failures_message(entries: &Vec<(String, Error)>, n: usize) -> (r: String)
    requires
        n <= entries.len(),
    ensures
        r@ == failures_text(*entries, n as nat),
    decreases entries, n,
{
    if n == 0 {
        return String::new();
    }
    let mut r: String = if n == 1 {
        String::new()
    } else {
        let mut front: String = failures_message(entries, n - 1);
        front.append(", ");
        front
    };
    let ghost front = r@;
    r.append(entries[n - 1].0.as_str());
    r.append(": {");
    r.append(entries[n - 1].1.message().as_str());
    r.append("}");
    proof {
        let one = entries[n - 1].0@ + ": {"@ + entries[n - 1].1.text() + "}"@;
        assert(r@ =~= front + one);
        if n == 1 {
            assert(front + one =~= one);
        }
    }
    r
}

impl MemdxError {
    pub closed spec fn spec_source(&self) -> memdx::Error {
        self.inner.source
    }

    pub closed spec fn spec_dispatched_to(&self) -> Option<String> {
        self.inner.dispatched_to
    }

    pub closed spec fn spec_dispatched_from(&self) -> Option<String> {
        self.inner.dispatched_from
    }

    pub closed spec fn spec_doc_id(&self) -> Option<Vec<u8>> {
        self.inner.doc_id
    }

    pub closed spec fn spec_bucket_name(&self) -> Option<String> {
        self.inner.bucket_name
    }

    pub closed spec fn spec_scope_name(&self) -> Option<String> {
        self.inner.scope_name
    }

    pub closed spec fn spec_collection_name(&self) -> Option<String> {
        self.inner.collection_name
    }

    /// The context of `other`, but for what a setter changes: nothing else
    /// differs.
    pub open spec fn same_but(
        &self,
        other: &MemdxError,
        doc_id: Option<Vec<u8>>,
        bucket_name: Option<String>,
        scope_name: Option<String>,
        collection_name: Option<String>,
    ) -> bool {
        &&& self.spec_source() == other.spec_source()
        &&& self.spec_dispatched_to() == other.spec_dispatched_to()
        &&& self.spec_dispatched_from() == other.spec_dispatched_from()
        &&& self.spec_doc_id() == doc_id
        &&& self.spec_bucket_name() == bucket_name
        &&& self.spec_scope_name() == scope_name
        &&& self.spec_collection_name() == collection_name
    }

    /// The operation's failure, with nothing known of where it happened.
    pub fn new(source: memdx::Error) -> (r: Self)
        ensures
            r.spec_source() == source,
            r.spec_dispatched_to() is None,
            r.spec_dispatched_from() is None,
            r.spec_doc_id() is None,
            r.spec_bucket_name() is None,
            r.spec_scope_name() is None,
            r.spec_collection_name() is None,
    {
        MemdxError {
            inner: Box::new(
                InnerMemdxError {
                    source,
                    dispatched_to: None,
                    dispatched_from: None,
                    doc_id: None,
                    bucket_name: None,
                    scope_name: None,
                    collection_name: None,
                },
            ),
        }
    }

    /// The operation's failure itself.
    pub fn memdx_error(&self) -> (r: &memdx::Error)
        ensures
            *r == self.spec_source(),
    {
        &self.inner.source
    }

    pub fn with_dispatched_to(self, dispatched_to: String) -> (r: Self)
        ensures
            r.spec_dispatched_to() == Some(dispatched_to),
            r.spec_dispatched_from() == self.spec_dispatched_from(),
            r.spec_source() == self.spec_source(),
            r.spec_doc_id() == self.spec_doc_id(),
            r.spec_bucket_name() == self.spec_bucket_name(),
            r.spec_scope_name() == self.spec_scope_name(),
            r.spec_collection_name() == self.spec_collection_name(),
    {
        let mut inner: InnerMemdxError = *self.inner;
        inner.dispatched_to = Some(dispatched_to);
        MemdxError { inner: Box::new(inner) }
    }

    pub fn with_dispatched_from(self, dispatched_from: String) -> (r: Self)
        ensures
            r.spec_dispatched_to() == self.spec_dispatched_to(),
            r.spec_dispatched_from() == Some(dispatched_from),
            r.spec_source() == self.spec_source(),
            r.spec_doc_id() == self.spec_doc_id(),
            r.spec_bucket_name() == self.spec_bucket_name(),
            r.spec_scope_name() == self.spec_scope_name(),
            r.spec_collection_name() == self.spec_collection_name(),
    {
        let mut inner: InnerMemdxError = *self.inner;
        inner.dispatched_from = Some(dispatched_from);
        MemdxError { inner: Box::new(inner) }
    }

    pub fn dispatched_to(&self) -> (r: Option<&String>)
        ensures
            r == (match self.spec_dispatched_to() {
                Some(s) => Some(&s),
                None => None,
            }),
    {
        self.inner.dispatched_to.as_ref()
    }

    pub fn dispatched_from(&self) -> (r: Option<&String>)
        ensures
            r == (match self.spec_dispatched_from() {
                Some(s) => Some(&s),
                None => None,
            }),
    {
        self.inner.dispatched_from.as_ref()
    }

    pub fn doc_id(&self) -> (r: Option<&[u8]>)
        ensures
            r is Some <==> self.spec_doc_id() is Some,
            r is Some ==> r->0@ == self.spec_doc_id()->0@,
    {
        match &self.inner.doc_id {
            Some(id) => Some(id.as_slice()),
            None => None,
        }
    }

    pub fn bucket_name(&self) -> (r: Option<&String>)
        ensures
            r == (match self.spec_bucket_name() {
                Some(s) => Some(&s),
                None => None,
            }),
    {
        self.inner.bucket_name.as_ref()
    }

    pub fn scope_name(&self) -> (r: Option<&String>)
        ensures
            r == (match self.spec_scope_name() {
                Some(s) => Some(&s),
                None => None,
            }),
    {
        self.inner.scope_name.as_ref()
    }

    pub fn collection_name(&self) -> (r: Option<&String>)
        ensures
            r == (match self.spec_collection_name() {
                Some(s) => Some(&s),
                None => None,
            }),
    {
        self.inner.collection_name.as_ref()
    }

    pub fn set_doc_id(self, doc_id: Vec<u8>) -> (r: Self)
        ensures
            r.same_but(
                &self,
                Some(doc_id),
                self.spec_bucket_name(),
                self.spec_scope_name(),
                self.spec_collection_name(),
            ),
    {
        let mut inner: InnerMemdxError = *self.inner;
        inner.doc_id = Some(doc_id);
        MemdxError { inner: Box::new(inner) }
    }

    pub fn set_bucket_name(self, bucket_name: String) -> (r: Self)
        ensures
            r.same_but(
                &self,
                self.spec_doc_id(),
                Some(bucket_name),
                self.spec_scope_name(),
                self.spec_collection_name(),
            ),
    {
        let mut inner: InnerMemdxError = *self.inner;
        inner.bucket_name = Some(bucket_name);
        MemdxError { inner: Box::new(inner) }
    }

    pub fn set_scope_name(self, scope_name: String) -> (r: Self)
        ensures
            r.same_but(
                &self,
                self.spec_doc_id(),
                self.spec_bucket_name(),
                Some(scope_name),
                self.spec_collection_name(),
            ),
    {
        let mut inner: InnerMemdxError = *self.inner;
        inner.scope_name = Some(scope_name);
        MemdxError { inner: Box::new(inner) }
    }

    pub fn set_collection_name(self, collection_name: String) -> (r: Self)
        ensures
            r.same_but(
                &self,
                self.spec_doc_id(),
                self.spec_bucket_name(),
                self.spec_scope_name(),
                Some(collection_name),
            ),
    {
        let mut inner: InnerMemdxError = *self.inner;
        inner.collection_name = Some(collection_name);
        MemdxError { inner: Box::new(inner) }
    }

    pub open spec fn text(&self) -> Seq<char> {
        let to = match self.spec_dispatched_to() {
            Some(to) => self.spec_source().text@ + ", dispatched to: "@ + to@,
            None => self.spec_source().text@,
        };
        match self.spec_dispatched_from() {
            Some(from) => to + ", dispatched from: "@ + from@,
            None => to,
        }
    }

    /// How the error reads: the operation's failure, and behind it where it
    /// was sent to and from.
    pub fn message(&self) -> (r: String)
        ensures
            r@ == self.text(),
    {
        let mut r: String = self.inner.source.text.clone();
        match &self.inner.dispatched_to {
            Some(to) => {
                r.append(", dispatched to: ");
                r.append(to.as_str());
            },
            None => {},
        }
        match &self.inner.dispatched_from {
            Some(from) => {
                r.append(", dispatched from: ");
                r.append(from.as_str());
            },
            None => {},
        }
        r
    }

    /// The name the error is counted under.
    pub fn metrics_name(&self) -> (r: &str)
        ensures
            r@ == self.spec_source().metrics_name@,
    {
        self.inner.source.metrics_name.as_str()
    }
}

/// An error reads as its kind does, and where it was retried, as the retries do
/// behind a comma.
pub proof fn an_error_reads_as_its_kind_and_its_retries(e: Error)
    ensures
        e.spec_retry_info() is None ==> e.text() == kind_text(e.spec_kind()),
        e.spec_retry_info() matches Some(retry) ==> e.text() == kind_text(e.spec_kind())
            + ", operation: "@ + retry.operation@ + ", is_idempotent: "@ + (if retry.is_idempotent {
            "true"@
        } else {
            "false"@
        }) + ", retry_attempts: "@ + decimal(retry.retry_attempts as nat),
{
    if let Some(retry) = e.spec_retry_info() {
        reveal_strlit(", ");
        reveal_strlit("operation: ");
        reveal_strlit(", operation: ");
        reveal_strlit(", is_idempotent: ");
        reveal_strlit("true");
        reveal_strlit("false");
        reveal_strlit(", retry_attempts: ");
        reveal_strlit(", is_idempotent: true, retry_attempts: ");
        reveal_strlit(", is_idempotent: false, retry_attempts: ");
        assert(", "@ + "operation: "@ =~= ", operation: "@);
        assert(", is_idempotent: "@ + "true"@ + ", retry_attempts: "@
            =~= ", is_idempotent: true, retry_attempts: "@);
        assert(", is_idempotent: "@ + "false"@ + ", retry_attempts: "@
            =~= ", is_idempotent: false, retry_attempts: "@);
        assert(e.text() =~= kind_text(e.spec_kind()) + ", operation: "@ + retry.operation@
            + ", is_idempotent: "@ + (if retry.is_idempotent {
            "true"@
        } else {
            "false"@
        }) + ", retry_attempts: "@ + decimal(retry.retry_attempts as nat));
    }
}

/// An error names what it is about: the vbucket, the replica or the manifest
/// that was asked for, and behind it what there is.
pub proof fn an_error_names_what_was_asked_for_before_what_there_is(kind: ErrorKind)
    ensures
        kind matches ErrorKind::InvalidVbucket { requested_vb_id, num_vbuckets } ==> kind_text(kind)
            == "invalid vbucket id: "@ + decimal(requested_vb_id as nat) + ", num vbuckets: "@
            + decimal(num_vbuckets as nat),
        kind matches ErrorKind::InvalidReplica { requested_replica, num_servers } ==> kind_text(
            kind,
        ) == "invalid replica: "@ + decimal(requested_replica as nat) + ", num servers: "@
            + decimal(num_servers as nat),
        kind matches ErrorKind::NoServerAssigned { requested_vb_id } ==> kind_text(kind)
            == "no server assigned for vbucket id: "@ + decimal(requested_vb_id as nat),
        kind matches ErrorKind::CollectionManifestOutdated {
            manifest_uid,
            server_manifest_uid,
        } ==> kind_text(kind) == "collection manifest outdated: our manifest uid: "@ + decimal(
            manifest_uid as nat,
        ) + ", server manifest uid: "@ + decimal(server_manifest_uid as nat),
        kind matches ErrorKind::InvalidArgument { msg, arg: Some(arg) } ==> kind_text(kind)
            == "invalid argument "@ + arg@ + ": "@ + msg@,
        kind matches ErrorKind::InvalidArgument { msg, arg: None } ==> kind_text(kind)
            == "invalid argument: "@ + msg@,
        kind matches ErrorKind::FeatureNotAvailable { feature, msg } ==> kind_text(kind)
            == "feature not available: "@ + feature@ + ", "@ + msg@,
        kind matches ErrorKind::ConnectFailed { endpoint, source } ==> kind_text(kind)
            == "could not connect to "@ + endpoint@ + ": "@ + source.spec_cause().text(),
        kind matches ErrorKind::EndpointNotKnown { endpoint } ==> kind_text(kind)
            == "endpoint not known: "@ + endpoint@,
        kind matches ErrorKind::ServiceNotAvailable { service } ==> kind_text(kind)
            == "service not available: "@ + service.text(),
        kind matches ErrorKind::Message { msg } ==> kind_text(kind) == msg@,
        kind matches ErrorKind::Internal { msg } ==> kind_text(kind) == "internal error: "@ + msg@,
        kind matches ErrorKind::IllegalState { msg } ==> kind_text(kind) == "illegal state: "@
            + msg@,
        kind matches ErrorKind::Compression { msg } ==> kind_text(kind) == "compression error: "@
            + msg@,
        kind is VbucketMapOutdated ==> kind_text(kind) == "vbucket map outdated"@,
        kind is NoEndpointsAvailable ==> kind_text(kind) == "no endpoints available"@,
        kind is Shutdown ==> kind_text(kind) == "shutdown"@,
        kind is NoBucket ==> kind_text(kind) == "no bucket selected"@,
        kind is NoVbucketMap ==> kind_text(kind) == "invalid vbucket map"@,
{
}

/// What a service said is what the caller reads, and so is the error underneath
/// it and the name that it is counted under. None is another service's.
pub proof fn a_service_speaks_for_itself(e: Error)
    ensures
        e.spec_kind() matches ErrorKind::Query(err) ==> kind_text(e.spec_kind()) == err.text@
            && e.source_text() == opt_text(err.source) && e.spec_kind().counted_as()
            == err.metrics_name@,
        e.spec_kind() matches ErrorKind::Search(err) ==> kind_text(e.spec_kind()) == err.text@
            && e.source_text() == opt_text(err.source) && e.spec_kind().counted_as()
            == err.metrics_name@,
        e.spec_kind() matches ErrorKind::Http(err) ==> kind_text(e.spec_kind()) == err.text@
            && e.source_text() == opt_text(err.source) && e.spec_kind().counted_as()
            == err.metrics_name@,
        e.spec_kind() matches ErrorKind::Mgmt(err) ==> kind_text(e.spec_kind()) == err.text@
            && e.source_text() == opt_text(err.source) && e.spec_kind().counted_as()
            == err.metrics_name@,
        e.spec_kind() matches ErrorKind::Analytics(err) ==> kind_text(e.spec_kind()) == err.text@
            && e.source_text() is None && e.spec_kind().counted_as() == err.metrics_name@,
        e.spec_kind() matches ErrorKind::Memdx(err) ==> e.source_text() == opt_text(
            err.spec_source().source,
        ) && e.spec_kind().counted_as() == err.spec_source().metrics_name@,
        e.spec_kind() matches ErrorKind::ConnectFailed { endpoint, source } ==> e.source_text()
            == Some(source.spec_cause().text()),
{
}

/// An error of the library's own is counted under the name of its kind. One
/// that is no more than a message has no name to be counted under.
pub proof fn an_error_is_counted_by_its_kind(kind: ErrorKind)
    ensures
        kind is IndexRouting ==> kind.counted_as() == "IndexRouting"@,
        kind is ConnectFailed ==> kind.counted_as() == "ConnectFailed"@,
        kind is InvalidArgument ==> kind.counted_as() == "InvalidArgument"@,
        kind is ServiceNotAvailable ==> kind.counted_as() == "ServiceNotAvailable"@,
        kind is FeatureNotAvailable ==> kind.counted_as() == "FeatureNotAvailable"@,
        kind is VbucketMapOutdated ==> kind.counted_as() == "VBucketMapOutdated"@,
        kind is EndpointNotKnown ==> kind.counted_as() == "EndpointNotKnown"@,
        kind is InvalidVbucket ==> kind.counted_as() == "InvalidVbucket"@,
        kind is InvalidReplica ==> kind.counted_as() == "InvalidReplica"@,
        kind is NoEndpointsAvailable ==> kind.counted_as() == "NoEndpointsAvailable"@,
        kind is Shutdown ==> kind.counted_as() == "Shutdown"@,
        kind is NoBucket ==> kind.counted_as() == "NoBucket"@,
        kind is IllegalState ==> kind.counted_as() == "IllegalState"@,
        kind is NoVbucketMap ==> kind.counted_as() == "NoVbucketMap"@,
        kind is BootstrapAllFailed ==> kind.counted_as() == "BootstrapAllFailed"@,
        kind is NoServerAssigned ==> kind.counted_as() == "NoServerAssigned"@,
        kind is CollectionManifestOutdated ==> kind.counted_as() == "CollectionManifestOutdated"@,
        kind is Compression ==> kind.counted_as() == "Compression"@,
        kind is Message || kind is Internal ==> kind.counted_as() == "_OTHER"@,
{
}

/// A failed operation reads as what failed, then where it was sent to, then
/// where it was sent from, as far as each is known.
pub proof fn a_failed_operation_says_where_it_went(e: MemdxError)
    ensures
        e.spec_dispatched_to() is None && e.spec_dispatched_from() is None ==> e.text()
            == e.spec_source().text@,
        e.spec_dispatched_to() matches Some(to) ==> (e.spec_dispatched_from() matches Some(from)
            ==> e.text() == e.spec_source().text@ + ", dispatched to: "@ + to@
            + ", dispatched from: "@ + from@),
        e.spec_dispatched_to() matches Some(to) ==> (e.spec_dispatched_from() is None ==> e.text()
            == e.spec_source().text@ + ", dispatched to: "@ + to@),
        e.spec_dispatched_to() is None ==> (e.spec_dispatched_from() matches Some(from) ==> e.text()
            == e.spec_source().text@ + ", dispatched from: "@ + from@),
{
}

/// A bootstrap that failed everywhere says of each endpoint what it said, by
/// the endpoint's name.
pub proof fn every_failed_endpoint_is_named(entries: Vec<(String, Error)>, n: nat)
    requires
        0 < n <= entries@.len(),
    ensures
        n == 1 ==> failures_text(entries, n) == entries@[0].0@ + ": {"@ + entries@[0].1.text()
            + "}"@,
        n > 1 ==> failures_text(entries, n) == failures_text(entries, (n - 1) as nat) + (", "@ + (
        entries@[n - 1].0@ + ": {"@ + entries@[n - 1].1.text() + "}"@)),
{
    if n > 1 {
        let one = entries@[n - 1].0@ + ": {"@ + entries@[n - 1].1.text() + "}"@;
        assert(failures_text(entries, (n - 1) as nat) + ", "@ + one =~= failures_text(
            entries,
            (n - 1) as nat,
        ) + (", "@ + one));
    }
}

/// A failure that is given one more detail keeps every other.
pub proof fn a_failure_keeps_what_was_known_of_it(
    r: MemdxError,
    e: MemdxError,
    doc_id: Option<Vec<u8>>,
    bucket_name: Option<String>,
    scope_name: Option<String>,
    collection_name: Option<String>,
)
    requires
        r.same_but(&e, doc_id, bucket_name, scope_name, collection_name),
    ensures
        r.spec_source() == e.spec_source(),
        r.spec_dispatched_to() == e.spec_dispatched_to(),
        r.spec_dispatched_from() == e.spec_dispatched_from(),
        r.spec_doc_id() == doc_id,
        r.spec_bucket_name() == bucket_name,
        r.spec_scope_name() == scope_name,
        r.spec_collection_name() == collection_name,
        r.text() == e.text(),
{
}

/// Two failed operations are the same only where every detail is: what the
/// server said, where it was sent, and the document it was about.
pub proof fn a_failed_operation_is_the_same_only_in_every_detail(a: MemdxError, b: MemdxError)
    requires
        a.same_as(&b),
    ensures
        a.spec_source().kind == b.spec_source().kind,
        a.spec_source().text@ == b.spec_source().text@,
        a.spec_source().metrics_name@ == b.spec_source().metrics_name@,
        a.spec_source().source is Some <==> b.spec_source().source is Some,
        a.spec_source().source is Some ==> a.spec_source().source->0@
            == b.spec_source().source->0@,
        a.spec_doc_id() is Some <==> b.spec_doc_id() is Some,
        a.spec_doc_id() is Some ==> a.spec_doc_id()->0@ == b.spec_doc_id()->0@,
        a.spec_bucket_name() is Some <==> b.spec_bucket_name() is Some,
        a.spec_bucket_name() is Some ==> a.spec_bucket_name()->0@ == b.spec_bucket_name()->0@,
        a.spec_scope_name() is Some <==> b.spec_scope_name() is Some,
        a.spec_scope_name() is Some ==> a.spec_scope_name()->0@ == b.spec_scope_name()->0@,
        a.spec_collection_name() is Some <==> b.spec_collection_name() is Some,
        a.spec_collection_name() is Some ==> a.spec_collection_name()->0@
            == b.spec_collection_name()->0@,
        a.text() == b.text(),
        b.same_as(&a),
{
}

/// Two errors are the same kind of failure only where they are counted under
/// one name, and only where the numbers and names they carry agree. Of a failed
/// connect that is the endpoint.
pub proof fn an_error_is_the_same_only_in_every_detail(a: ErrorKind, b: ErrorKind)
    requires
        a.same_as(&b),
    ensures
        a is InvalidArgument <==> b is InvalidArgument,
        a is InvalidArgument ==> a->InvalidArgument_msg@ == b->InvalidArgument_msg@,
        a is InvalidVbucket <==> b is InvalidVbucket,
        a is InvalidVbucket ==> a->InvalidVbucket_requested_vb_id
            == b->InvalidVbucket_requested_vb_id && a->num_vbuckets == b->num_vbuckets,
        a is InvalidReplica <==> b is InvalidReplica,
        a is InvalidReplica ==> a->requested_replica == b->requested_replica && a->num_servers
            == b->num_servers,
        a is NoServerAssigned <==> b is NoServerAssigned,
        a is NoServerAssigned ==> a->NoServerAssigned_requested_vb_id
            == b->NoServerAssigned_requested_vb_id,
        a is CollectionManifestOutdated <==> b is CollectionManifestOutdated,
        a is CollectionManifestOutdated ==> a->manifest_uid == b->manifest_uid
            && a->server_manifest_uid == b->server_manifest_uid,
        a is EndpointNotKnown <==> b is EndpointNotKnown,
        a is EndpointNotKnown ==> a->EndpointNotKnown_endpoint@ == b->EndpointNotKnown_endpoint@,
        a is ConnectFailed <==> b is ConnectFailed,
        a is ConnectFailed ==> a->ConnectFailed_endpoint@ == b->ConnectFailed_endpoint@,
        a is Message <==> b is Message,
        a is Message ==> a->Message_msg@ == b->Message_msg@,
        a is Memdx <==> b is Memdx,
        a is Query <==> b is Query,
        a is Search <==> b is Search,
        a is Analytics <==> b is Analytics,
        a is Http <==> b is Http,
        a is Mgmt <==> b is Mgmt,
        a is Indexer <==> b is Indexer,
        a is IndexRouting <==> b is IndexRouting,
        a is Shutdown <==> b is Shutdown,
        a is NoBucket <==> b is NoBucket,
        a is NoVbucketMap <==> b is NoVbucketMap,
        a is NoEndpointsAvailable <==> b is NoEndpointsAvailable,
        a is VbucketMapOutdated <==> b is VbucketMapOutdated,
        a is ServiceNotAvailable <==> b is ServiceNotAvailable,
        a is FeatureNotAvailable <==> b is FeatureNotAvailable,
        a is IllegalState <==> b is IllegalState,
        a is Internal <==> b is Internal,
        a is Compression <==> b is Compression,
        a is BootstrapAllFailed <==> b is BootstrapAllFailed,
{
}

} // verus!
