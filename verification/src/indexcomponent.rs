//! Reading a secondary index: when the index topology is re-read, which pool a
//! route is served from, and what each host is asked.
//!
//! The topology is read before the first scan, after a cluster config that
//! changed the index nodes, and once after a failure that a fresher topology
//! could fix. A retry happens only before a caller has read anything, where it
//! repeats nothing.
//!
//! The requests themselves are the program's. A scan and a refresh each say
//! what to do next and take what came of it.
use std::time::Duration;
use vstd::prelude::*;
use crate::address::Address;
use crate::authenticator::{Auth, Authenticator, TlsConfig};
use crate::componentconfigs::{IndexComponentConfig, NetworkAndCanonicalEndpoint};
use crate::duration::nanos_in;
use crate::error::{Error, ErrorKind};
use crate::indexerx;
use crate::indexerx::client::ConnectOptions;
use crate::indexerx::proto::{
    all_identified, Consistency, DataEncoding, Projection, ScanOptions, ScanVector,
    ScanVectorEntry,
};
use crate::indexerx::span::Scan;
use crate::indexerx::status::IndexStatus;
use crate::indexrouter::{
    chosen_rows, is_worth_refreshing, partition_order_is_a_reordering, placements, ready_rows,
    routes_to, views, worth_refreshing, Dial, IndexRef, IndexRouter, NodeMap, Route, RouteError,
    RouteView,
};
use crate::mutationtoken::MutationToken;
use crate::service_type::ServiceType;
use crate::string_map::StringMap;
use crate::text::owned;

verus! {

/// How current an index must be before it is read.
#[derive(Debug)]
pub enum IndexScanConsistency {
    Any,
    Session,
    /// At least as recent as these mutations.
    AtPlus(Vec<MutationToken>),
}

/// What a caller asks of an index.
#[derive(Debug)]
pub struct IndexScanOptions {
    pub scope_name: String,
    pub collection_name: String,
    pub index_name: String,
    pub consistency: IndexScanConsistency,
    /// Names the scan in the indexer's logs. A fresh one is made where this is
    /// absent.
    pub request_id: Option<String>,
    pub scans: Vec<Scan>,
    pub projection: Option<Projection>,
    pub distinct: bool,
    pub offset: i64,
    pub limit: Option<i64>,
    pub data_encoding: DataEncoding,
    /// The end user this scan runs on behalf of.
    pub on_behalf_of: Option<String>,
    /// A wall-clock budget.
    pub timeout: Option<Duration>,
}

pub open spec fn entry_of(t: MutationToken) -> ScanVectorEntry {
    ScanVectorEntry { vbucket: t.spec_vbid(), seqno: t.spec_seqno(), vbuuid: t.spec_vbuuid() }
}

/// The token at `i` is the furthest of its vbucket, and the first that far.
pub open spec fn is_latest(tokens: Seq<MutationToken>, i: int) -> bool {
    &&& 0 <= i < tokens.len()
    &&& forall|j: int|
        0 <= j < tokens.len() && (#[trigger] tokens[j]).spec_vbid() == tokens[i].spec_vbid()
            ==> tokens[j].spec_seqno() <= tokens[i].spec_seqno() && (j < i
            ==> tokens[j].spec_seqno() < tokens[i].spec_seqno())
}

/// Whether the vbucket has an entry.
pub open spec fn is_named(entries: Seq<ScanVectorEntry>, vbucket: u16) -> bool {
    exists|k: int| 0 <= k < entries.len() && (#[trigger] entries[k]).vbucket == vbucket
}

/// Whether an entry is that of a vbucket's latest token.
pub open spec fn is_of_latest(tokens: Seq<MutationToken>, e: ScanVectorEntry) -> bool {
    exists|i: int| #[trigger] is_latest(tokens, i) && e == entry_of(tokens[i])
}

/// The entries that tokens ask for: one for each vbucket that a token names,
/// by ascending vbucket, and each that of its vbucket's latest token.
pub open spec fn is_vector_of(tokens: Seq<MutationToken>, entries: Seq<ScanVectorEntry>) -> bool {
    &&& forall|a: int, b: int|
        0 <= a < b < entries.len() ==> (#[trigger] entries[a]).vbucket < (
        #[trigger] entries[b]).vbucket
    &&& forall|k: int| 0 <= k < entries.len() ==> is_of_latest(tokens, #[trigger] entries[k])
    &&& forall|i: int|
        0 <= i < tokens.len() ==> is_named(entries, (#[trigger] tokens[i]).spec_vbid())
}

/// Tokens ask for one vector only.
pub proof fn a_vector_is_determined_by_its_tokens(
    tokens: Seq<MutationToken>,
    a: Seq<ScanVectorEntry>,
    b: Seq<ScanVectorEntry>,
)
    requires
        is_vector_of(tokens, a),
        is_vector_of(tokens, b),
    ensures
        a == b,
{
    lemma_vector_prefix(tokens, a, b, a.len() as int);
    lemma_vector_prefix(tokens, b, a, b.len() as int);
    assert(a =~= b);
}

proof fn lemma_vector_prefix(
    tokens: Seq<MutationToken>,
    a: Seq<ScanVectorEntry>,
    b: Seq<ScanVectorEntry>,
    n: int,
)
    requires
        is_vector_of(tokens, a),
        is_vector_of(tokens, b),
        0 <= n <= a.len(),
    ensures
        n <= b.len(),
        forall|k: int| 0 <= k < n ==> a[k] == b[k],
    decreases n,
{
    if n > 0 {
        lemma_vector_prefix(tokens, a, b, n - 1);
        let k = n - 1;
        assert(is_of_latest(tokens, a[k]));
        let i = choose|i: int| #[trigger] is_latest(tokens, i) && a[k] == entry_of(tokens[i]);
        assert(is_named(b, tokens[i].spec_vbid()));
        let m = choose|m: int| 0 <= m < b.len() && (#[trigger] b[m]).vbucket == a[k].vbucket;
        if m < k {
            assert(a[m] == b[m]);
            assert(a[m].vbucket < a[k].vbucket);
        }
        assert(k < b.len());
        assert(is_of_latest(tokens, b[k]));
        let j = choose|j: int| #[trigger] is_latest(tokens, j) && b[k] == entry_of(tokens[j]);
        assert(is_named(a, tokens[j].spec_vbid()));
        let q = choose|q: int| 0 <= q < a.len() && (#[trigger] a[q]).vbucket == b[k].vbucket;
        if q < k {
            assert(a[q] == b[q]);
            assert(b[q].vbucket < b[k].vbucket);
        }
        if a[k].vbucket != b[k].vbucket {
            if q > k {
                assert(a[k].vbucket < a[q].vbucket);
            }
            if m > k {
                assert(b[k].vbucket < b[m].vbucket);
            }
        }
        assert(tokens[i].spec_vbid() == tokens[j].spec_vbid());
        assert(tokens[i].spec_seqno() <= tokens[j].spec_seqno());
        assert(tokens[j].spec_seqno() <= tokens[i].spec_seqno());
        assert(i == j);
    }
}

/// One more token, and what becomes of the entries: the new one stands for its
/// vbucket where it is further than what was held.
proof fn lemma_one_more_token(
    tokens: Seq<MutationToken>,
    t: MutationToken,
    held: Seq<ScanVectorEntry>,
    p: int,
    after: Seq<ScanVectorEntry>,
)
    requires
        is_vector_of(tokens, held),
        0 <= p <= held.len(),
        forall|k: int| 0 <= k < p ==> (#[trigger] held[k]).vbucket < t.spec_vbid(),
        p < held.len() ==> t.spec_vbid() <= held[p].vbucket,
        after == (if p < held.len() && held[p].vbucket == t.spec_vbid() {
            if t.spec_seqno() > held[p].seqno {
                held.update(p, entry_of(t))
            } else {
                held
            }
        } else {
            held.insert(p, entry_of(t))
        }),
    ensures
        is_vector_of(tokens.push(t), after),
{
    let all = tokens.push(t);
    let n = tokens.len() as int;
    let here = p < held.len() && held[p].vbucket == t.spec_vbid();
    assert forall|k: int| 0 <= k < held.len() && held[k].vbucket != t.spec_vbid() implies
        is_of_latest(all, #[trigger] held[k]) by {
        assert(is_of_latest(tokens, held[k]));
        let i = choose|i: int| #[trigger] is_latest(tokens, i) && held[k] == entry_of(tokens[i]);
        assert(is_latest(all, i)) by {
            assert forall|j: int|
                0 <= j < all.len() && (#[trigger] all[j]).spec_vbid()
                    == all[i].spec_vbid() implies all[j].spec_seqno() <= all[i].spec_seqno() && (j
                < i ==> all[j].spec_seqno() < all[i].spec_seqno()) by {
                assert(j < n);
                assert(tokens[j] == all[j]);
            }
        }
        assert(held[k] == entry_of(all[i]));
    }
    if here {
        assert(is_of_latest(tokens, held[p]));
        let i = choose|i: int| #[trigger] is_latest(tokens, i) && held[p] == entry_of(tokens[i]);
        if t.spec_seqno() > held[p].seqno {
            assert(is_latest(all, n)) by {
                assert forall|j: int|
                    0 <= j < all.len() && (#[trigger] all[j]).spec_vbid()
                        == all[n].spec_vbid() implies all[j].spec_seqno() <= all[n].spec_seqno()
                    && (j < n ==> all[j].spec_seqno() < all[n].spec_seqno()) by {
                    if j < n {
                        assert(tokens[j] == all[j]);
                    }
                }
            }
            assert(entry_of(all[n]) == after[p]);
        } else {
            assert(is_latest(all, i)) by {
                assert forall|j: int|
                    0 <= j < all.len() && (#[trigger] all[j]).spec_vbid()
                        == all[i].spec_vbid() implies all[j].spec_seqno() <= all[i].spec_seqno()
                    && (j < i ==> all[j].spec_seqno() < all[i].spec_seqno()) by {
                    if j < n {
                        assert(tokens[j] == all[j]);
                    }
                }
            }
            assert(held[p] == entry_of(all[i]));
        }
        assert forall|k: int| 0 <= k < after.len() implies is_of_latest(
            all,
            #[trigger] after[k],
        ) by {
            if k != p {
                assert(held[k].vbucket != t.spec_vbid());
                assert(after[k] == held[k]);
            }
        }
        assert forall|i: int| 0 <= i < all.len() implies is_named(
            after,
            (#[trigger] all[i]).spec_vbid(),
        ) by {
            if i < n {
                assert(tokens[i] == all[i]);
                assert(is_named(held, tokens[i].spec_vbid()));
                let k = choose|k: int|
                    0 <= k < held.len() && (#[trigger] held[k]).vbucket == tokens[i].spec_vbid();
                assert(after[k].vbucket == held[k].vbucket);
            } else {
                assert(after[p].vbucket == t.spec_vbid());
            }
        }
    } else {
        assert forall|k: int| 0 <= k < held.len() implies (#[trigger] held[k]).vbucket
            != t.spec_vbid() by {
            if k > p {
                assert(held[p].vbucket < held[k].vbucket);
            }
        }
        assert(is_latest(all, n)) by {
            assert forall|j: int|
                0 <= j < all.len() && (#[trigger] all[j]).spec_vbid()
                    == all[n].spec_vbid() implies all[j].spec_seqno() <= all[n].spec_seqno() && (j
                < n ==> all[j].spec_seqno() < all[n].spec_seqno()) by {
                if j < n {
                    assert(tokens[j] == all[j]);
                    assert(is_named(held, tokens[j].spec_vbid()));
                }
            }
        }
        assert(after[p] == entry_of(all[n]));
        assert forall|k: int| 0 <= k < after.len() implies is_of_latest(
            all,
            #[trigger] after[k],
        ) by {
            if k < p {
                assert(after[k] == held[k]);
            } else if k > p {
                assert(after[k] == held[k - 1]);
            }
        }
        assert forall|a: int, b: int| 0 <= a < b < after.len() implies (
        #[trigger] after[a]).vbucket < (#[trigger] after[b]).vbucket by {
            let a2 = if a < p { a } else { a - 1 };
            let b2 = if b < p { b } else { b - 1 };
            if a != p && b != p {
                assert(held[a2].vbucket < held[b2].vbucket);
            } else if a == p {
                assert(after[b] == held[b2]);
                if b2 > p {
                    assert(held[p].vbucket < held[b2].vbucket);
                }
            }
        }
        assert forall|i: int| 0 <= i < all.len() implies is_named(
            after,
            (#[trigger] all[i]).spec_vbid(),
        ) by {
            if i < n {
                assert(tokens[i] == all[i]);
                assert(is_named(held, tokens[i].spec_vbid()));
                let k = choose|k: int|
                    0 <= k < held.len() && (#[trigger] held[k]).vbucket == tokens[i].spec_vbid();
                let k2 = if k < p { k } else { k + 1 };
                assert(after[k2] == held[k]);
            } else {
                assert(after[p].vbucket == t.spec_vbid());
            }
        }
    }
}

fn vector_of(tokens: &Vec<MutationToken>) -> (r: Vec<ScanVectorEntry>)
    ensures
        is_vector_of(tokens@, r@),
{
    let mut held: Vec<ScanVectorEntry> = Vec::new();
    let mut i: usize = 0;
    while i < tokens.len()
        invariant
            i <= tokens.len(),
            is_vector_of(tokens@.take(i as int), held@),
        decreases tokens.len() - i,
    {
        let token: MutationToken = tokens[i];
        let entry: ScanVectorEntry = ScanVectorEntry {
            vbucket: token.vbid(),
            seqno: token.seqno(),
            vbuuid: token.vbuuid(),
        };
        let ghost before = held@;
        let mut p: usize = 0;
        while p < held.len() && held[p].vbucket < entry.vbucket
            invariant
                p <= held.len(),
                held@ == before,
                forall|k: int| 0 <= k < p ==> (#[trigger] held@[k]).vbucket < entry.vbucket,
            decreases held.len() - p,
        {
            p += 1;
        }
        if p < held.len() && held[p].vbucket == entry.vbucket {
            if entry.seqno > held[p].seqno {
                held.set(p, entry);
            }
        } else {
            held.insert(p, entry);
        }
        proof {
            assert(tokens@.take(i + 1) =~= tokens@.take(i as int).push(token));
            lemma_one_more_token(tokens@.take(i as int), token, before, p as int, held@);
        }
        i += 1;
    }
    assert(tokens@.take(tokens@.len() as int) =~= tokens@);
    held
}

/// Whether `r` is what a caller's consistency becomes. A token without a vbuuid
/// is refused where its vbucket's entry would be made of it: the indexer skips
/// such an entry, and the guarantee with it.
pub open spec fn is_consistency_of(
    consistency: IndexScanConsistency,
    r: Result<Consistency, Error>,
) -> bool {
    match consistency {
        IndexScanConsistency::Any => r matches Ok(c) && c == Consistency::Any,
        IndexScanConsistency::Session => r matches Ok(c) && c == Consistency::Session,
        IndexScanConsistency::AtPlus(tokens) => exists|entries: Seq<ScanVectorEntry>| #[trigger]
            is_vector_of(tokens@, entries) && if all_identified(entries) {
                r matches Ok(Consistency::Query(v)) && v@ == entries
            } else {
                r matches Err(e) && (e.spec_kind() matches ErrorKind::InvalidArgument {
                    msg,
                    arg: Some(arg),
                } && msg@ == "a scan vector entry with vbuuid 0 is silently ignored by the indexer"@
                    && arg@ == "consistency"@) && e.spec_retry_info() is None
            },
    }
}

/// A caller's consistency, as the wire's.
pub fn consistency_from(consistency: &IndexScanConsistency) -> (r: Result<Consistency, Error>)
    ensures
        is_consistency_of(*consistency, r),
{
    match consistency {
        IndexScanConsistency::Any => Ok(Consistency::Any),
        IndexScanConsistency::Session => Ok(Consistency::Session),
        IndexScanConsistency::AtPlus(tokens) => {
            let entries: Vec<ScanVectorEntry> = vector_of(tokens);
            assert(is_vector_of(tokens@, entries@));
            match ScanVector::new(entries) {
                Ok(v) => Ok(Consistency::Query(v)),
                Err(msg) => Err(
                    Error::new_invalid_argument_error(msg, Some(owned("consistency"))),
                ),
            }
        },
    }
}

/// A vector waits for every mutation that was asked for: each vbucket's entry
/// is at least as far as each of its tokens.
pub proof fn a_vector_waits_for_every_token(
    tokens: Seq<MutationToken>,
    entries: Seq<ScanVectorEntry>,
    i: int,
    k: int,
)
    requires
        is_vector_of(tokens, entries),
        0 <= i < tokens.len(),
        0 <= k < entries.len(),
        entries[k].vbucket == tokens[i].spec_vbid(),
    ensures
        tokens[i].spec_seqno() <= entries[k].seqno,
{
    assert(is_of_latest(tokens, entries[k]));
}

/// Whether `r` asks one host for its share of an index.
pub open spec fn is_share(
    r: ScanOptions,
    route: Route,
    opts: IndexScanOptions,
    consistency: Consistency,
    request_id: Seq<char>,
) -> bool {
    &&& r.defn_id == route.defn_id
    &&& r.request_id@ == request_id
    &&& r.partitions@ == (if route.partitioned {
        route.partitions@
    } else {
        Seq::empty()
    })
    &&& r.consistency.same_as(&consistency)
    &&& r.scans@.len() == opts.scans@.len()
    &&& forall|i: int|
        0 <= i < r.scans@.len() ==> (#[trigger] r.scans@[i]).same_as(&opts.scans@[i])
    &&& match opts.projection {
        Some(p) => r.projection matches Some(q) && q.entry_keys@ == p.entry_keys@ && q.primary_key
            == p.primary_key,
        None => r.projection is None,
    }
    &&& r.distinct == opts.distinct
    &&& r.offset == opts.offset
    &&& r.limit == (match opts.limit {
        Some(limit) => limit,
        None => i64::MAX,
    })
    &&& r.data_encoding == opts.data_encoding
    &&& r.user == opts.on_behalf_of
    &&& r.timeout == opts.timeout
}

/// One scan request, for one host's share of the index. An index that is not
/// partitioned is asked for no partition in particular.
pub fn scan_options(
    route: &Route,
    opts: &IndexScanOptions,
    consistency: &Consistency,
    request_id: &str,
) -> (r: ScanOptions)
    ensures
        is_share(r, *route, *opts, *consistency, request_id@),
{
    let partitions: Vec<u64> = if route.partitioned {
        route.partitions.clone()
    } else {
        Vec::new()
    };
    assert(route.partitioned ==> partitions@ =~= route.partitions@);
    let mut scans: Vec<Scan> = Vec::new();
    let mut i: usize = 0;
    while i < opts.scans.len()
        invariant
            i <= opts.scans.len(),
            scans@.len() == i,
            forall|j: int| 0 <= j < i ==> (#[trigger] scans@[j]).same_as(&opts.scans@[j]),
        decreases opts.scans.len() - i,
    {
        scans.push(opts.scans[i].clone());
        i += 1;
    }
    ScanOptions {
        defn_id: route.defn_id,
        request_id: owned(request_id),
        partitions,
        consistency: consistency.clone(),
        scans,
        projection: match &opts.projection {
            Some(p) => Some(p.clone()),
            None => None,
        },
        distinct: opts.distinct,
        offset: opts.offset,
        limit: match opts.limit {
            Some(limit) => limit,
            None => i64::MAX,
        },
        data_encoding: opts.data_encoding,
        user: match &opts.on_behalf_of {
            Some(user) => Some(user.clone()),
            None => None,
        },
        timeout: opts.timeout,
    }
}

/// What a queryport asks for in place of what it was offered.
pub open spec fn password_needed() -> Seq<char> {
    "the indexing service's queryport authenticates with a username and password, which this authenticator does not provide"@
}

/// The pool of an address: the first that was added for it.
pub open spec fn first_pool<P>(pools: Seq<(Address, P)>, address: Address) -> Option<P>
    decreases pools.len(),
{
    if pools.len() == 0 {
        None
    } else if pools[0].0.same_as(&address) {
        Some(pools[0].1)
    } else {
        first_pool(pools.drop_first(), address)
    }
}

/// The state of index reads: the router, how nodes are dialled, and a pool `P`
/// for each scan address that was used.
pub struct IndexComponent<P> {
    id: String,
    endpoints: StringMap<NetworkAndCanonicalEndpoint>,
    router: IndexRouter,
    nodes: NodeMap,
    authenticator: Authenticator,
    tls_config: Option<TlsConfig>,
    pools: Vec<(Address, P)>,
    tcp_keep_alive_time: Duration,
}

impl<P> IndexComponent<P> {
    pub closed spec fn router(&self) -> IndexRouter {
        self.router
    }

    /// Where the config says that the nodes are.
    pub closed spec fn nodes(&self) -> Map<Seq<char>, Dial> {
        self.nodes@
    }

    pub closed spec fn spec_id(&self) -> Seq<char> {
        self.id@
    }

    pub closed spec fn spec_authenticator(&self) -> Authenticator {
        self.authenticator
    }

    pub closed spec fn spec_tls_config(&self) -> Option<TlsConfig> {
        self.tls_config
    }

    pub closed spec fn spec_endpoints(&self) -> StringMap<NetworkAndCanonicalEndpoint> {
        self.endpoints
    }

    pub closed spec fn pools(&self) -> Seq<(Address, P)> {
        self.pools@
    }

    pub closed spec fn keep_alive(&self) -> Duration {
        self.tcp_keep_alive_time
    }

    /// Everything but the router is that of another component.
    pub open spec fn set_up_as(&self, other: &Self) -> bool {
        &&& self.nodes() == other.nodes()
        &&& self.spec_id() == other.spec_id()
        &&& self.spec_authenticator() == other.spec_authenticator()
        &&& self.spec_tls_config() == other.spec_tls_config()
        &&& self.spec_endpoints() == other.spec_endpoints()
        &&& self.pools() == other.pools()
        &&& self.keep_alive() == other.keep_alive()
    }

    pub fn new(config: IndexComponentConfig, id: String, tcp_keep_alive_time: Duration) -> (r: Self)
        ensures
            r.router().indexes().len() == 0,
            r.router().nodes() == config.nodes@,
            !r.router().is_current(),
            r.router().spec_generation() == 0,
            r.router().cursor() == 0,
            r.nodes() == config.nodes@,
            r.spec_id() == id@,
            r.spec_authenticator() == config.authenticator,
            r.spec_tls_config() == config.tls_config,
            r.spec_endpoints() == config.endpoints,
            r.pools().len() == 0,
            r.keep_alive() == tcp_keep_alive_time,
    {
        IndexComponent {
            id,
            endpoints: config.endpoints,
            router: IndexRouter::new(config.nodes.clone()),
            nodes: config.nodes,
            authenticator: config.authenticator,
            tls_config: config.tls_config,
            pools: Vec::new(),
            tcp_keep_alive_time,
        }
    }

    pub fn endpoints(&self) -> (r: &StringMap<NetworkAndCanonicalEndpoint>)
        ensures
            *r == self.spec_endpoints(),
    {
        &self.endpoints
    }

    /// Where each node's scan port is, as the latest config says.
    pub fn node_map(&self) -> (r: &NodeMap)
        ensures
            r@ == self.nodes(),
    {
        &self.nodes
    }

    pub fn authenticator(&self) -> (r: &Authenticator)
        ensures
            *r == self.spec_authenticator(),
    {
        &self.authenticator
    }

    /// Takes what a new cluster config says. The pools are left alone: no
    /// config changes what a connection authenticated with.
    pub fn reconfigure(&mut self, config: IndexComponentConfig)
        ensures
            final(self).nodes() == config.nodes@,
            final(self).spec_authenticator() == config.authenticator,
            final(self).spec_tls_config() == config.tls_config,
            final(self).spec_endpoints() == config.endpoints,
            final(self).spec_id() == old(self).spec_id(),
            final(self).pools() == old(self).pools(),
            final(self).keep_alive() == old(self).keep_alive(),
            config.nodes@ == old(self).router().nodes() ==> final(self).router()
                == old(self).router(),
            config.nodes@ != old(self).router().nodes() ==> {
                &&& final(self).router().indexes() == old(self).router().indexes()
                &&& final(self).router().nodes() == config.nodes@
                &&& !final(self).router().is_current()
                &&& final(self).router().spec_generation() == old(self).router().spec_generation()
                &&& final(self).router().cursor() == old(self).router().cursor()
            },
    {
        self.endpoints = config.endpoints;
        self.nodes = config.nodes.clone();
        self.authenticator = config.authenticator;
        self.tls_config = config.tls_config;
        self.router.set_nodes(config.nodes);
    }

    /// Gives up every pool, because what their connections authenticated with
    /// has changed. The caller drains them; the next scan makes new ones.
    pub fn drain_pools(&mut self) -> (r: Vec<(Address, P)>)
        ensures
            r@ == old(self).pools(),
            final(self).pools().len() == 0,
            final(self).router() == old(self).router(),
            final(self).nodes() == old(self).nodes(),
            final(self).spec_id() == old(self).spec_id(),
            final(self).spec_authenticator() == old(self).spec_authenticator(),
            final(self).spec_tls_config() == old(self).spec_tls_config(),
            final(self).spec_endpoints() == old(self).spec_endpoints(),
            final(self).keep_alive() == old(self).keep_alive(),
    {
        let mut pools: Vec<(Address, P)> = Vec::new();
        std::mem::swap(&mut pools, &mut self.pools);
        pools
    }

    /// The pool that serves an address, if one was added for it.
    pub fn pool_for(&self, address: &Address) -> (r: Option<&P>)
        ensures
            match first_pool(self.pools(), *address) {
                Some(pool) => r == Some(&pool),
                None => r is None,
            },
    {
        assert(self.pools@.skip(0) =~= self.pools@);
        let mut i: usize = 0;
        while i < self.pools.len()
            invariant
                i <= self.pools.len(),
                first_pool(self.pools@, *address) == first_pool(
                    self.pools@.skip(i as int),
                    *address,
                ),
            decreases self.pools.len() - i,
        {
            assert(self.pools@.skip(i as int)[0] == self.pools@[i as int]);
            if self.pools[i].0.same(address) {
                return Some(&self.pools[i].1);
            }
            assert(self.pools@.skip(i as int).drop_first() =~= self.pools@.skip(i + 1));
            i += 1;
        }
        None
    }

    /// Adds the pool of an address.
    pub fn add_pool(&mut self, address: Address, pool: P)
        ensures
            final(self).pools() == old(self).pools().push((address, pool)),
            final(self).router() == old(self).router(),
            final(self).nodes() == old(self).nodes(),
            final(self).spec_id() == old(self).spec_id(),
            final(self).spec_authenticator() == old(self).spec_authenticator(),
            final(self).spec_tls_config() == old(self).spec_tls_config(),
            final(self).spec_endpoints() == old(self).spec_endpoints(),
            final(self).keep_alive() == old(self).keep_alive(),
    {
        self.pools.push((address, pool));
    }

    /// How to dial a queryport. TLS is spoken exactly where there is a TLS
    /// configuration. A bearer token cannot be presented to a queryport at all.
    pub fn connect_options(&self, auth: Auth) -> (r: Result<ConnectOptions, Error>)
        ensures
            match auth {
                Auth::BasicAuth { username, password } => r matches Ok(o) && {
                    &&& o.username@ == username@
                    &&& o.password@ == password@
                    &&& o.max_payload == crate::indexerx::packet_codec::DEFAULT_MAX_PAYLOAD
                    &&& o.tls_config == self.spec_tls_config()
                    &&& nanos_in(o.connect_timeout)
                        == crate::indexerx::client::DEFAULT_CONNECT_TIMEOUT * 1_000_000_000
                    &&& o.tcp_keep_alive_time == self.keep_alive()
                },
                Auth::BearerAuth { token: _ } => r matches Err(e) && (
                e.spec_kind() matches ErrorKind::FeatureNotAvailable { feature, msg } && feature@
                    == "index scan"@ && msg@ == password_needed()) && e.spec_retry_info() is None,
            },
    {
        match auth {
            Auth::BasicAuth { username, password } => {
                let mut o: ConnectOptions = ConnectOptions::new(
                    username.as_str(),
                    password.as_str(),
                ).with_tls_config(self.tls_config);
                o.tcp_keep_alive_time = self.tcp_keep_alive_time;
                Ok(o)
            },
            Auth::BearerAuth { token: _ } => Err(
                Error::new_feature_not_available_error(
                    "index scan",
                    "the indexing service's queryport authenticates with a username and password, which this authenticator does not provide",
                ),
            ),
        }
    }

    /// How many times the index list has been replaced, to hand to
    /// [`IndexComponent::begin_refresh`] once it is this caller's turn.
    pub fn generation(&self) -> (r: usize)
        ensures
            r == self.router().spec_generation(),
    {
        self.router.generation()
    }

    /// Begins to read the index list anew. `None` where somebody else has done
    /// so since `generation`: their answer is no older. The node map is the one
    /// of now, so it is no newer than the list.
    pub fn begin_refresh(&self, generation: usize) -> (r: Option<Refresh>)
        ensures
            self.router().spec_generation() != generation ==> r is None,
            self.router().spec_generation() == generation ==> (r matches Some(refresh)
                && refresh.nodes() == self.nodes() && refresh.spec_tried().len() == 0),
    {
        if self.router.generation() != generation {
            return None;
        }
        Some(Refresh { nodes: self.nodes.clone(), tried: Vec::new() })
    }
}

/// A read of the index list that is under way.
pub struct Refresh {
    nodes: NodeMap,
    tried: Vec<String>,
}

/// What comes of one answer.
pub enum RefreshStep {
    /// The list is in place.
    Done,
    /// Another endpoint is to be asked.
    TryAnother(Refresh),
    Failed(Error),
}

impl Refresh {
    pub closed spec fn nodes(&self) -> Map<Seq<char>, Dial> {
        self.nodes@
    }

    pub closed spec fn spec_tried(&self) -> Seq<String> {
        self.tried@
    }

    /// The endpoints that did not answer, which are not to be asked again.
    pub fn tried(&self) -> (r: &Vec<String>)
        ensures
            r@ == self.spec_tried(),
    {
        &self.tried
    }

    /// The error of a refresh for which there is no endpoint left to ask.
    pub fn nobody_left(self) -> (r: Error)
        ensures
            r.spec_kind() == (ErrorKind::ServiceNotAvailable { service: ServiceType::INDEX }),
            r.spec_retry_info() is None,
    {
        Error::from(ErrorKind::ServiceNotAvailable { service: ServiceType::INDEX })
    }

    /// Takes an endpoint's answer. Any one indexer answers for the whole
    /// cluster, so a list is put in place at once, and a failure moves on to
    /// another endpoint. One that cannot be told apart from the others leaves
    /// nothing to move on to.
    pub fn answered<P>(
        self,
        component: &mut IndexComponent<P>,
        endpoint_id: Option<String>,
        answer: Result<Vec<IndexStatus>, indexerx::error::Error>,
    ) -> (r: RefreshStep)
        ensures
            final(component).set_up_as(old(component)),
            match answer {
                Ok(indexes) => {
                    &&& r is Done
                    &&& final(component).router().indexes() == indexes@
                    &&& final(component).router().nodes() == self.nodes()
                    &&& final(component).router().is_current()
                    &&& final(component).router().cursor() == old(component).router().cursor()
                    &&& final(component).router().spec_generation() == (if old(
                        component,
                    ).router().spec_generation() == usize::MAX {
                        0
                    } else {
                        (old(component).router().spec_generation() + 1) as usize
                    })
                },
                Err(e) => {
                    &&& final(component).router() == old(component).router()
                    &&& match endpoint_id {
                        Some(id) => r matches RefreshStep::TryAnother(next) && next.nodes()
                            == self.nodes() && next.spec_tried() == self.spec_tried().push(id),
                        None => r matches RefreshStep::Failed(failure) && failure.spec_kind()
                            == ErrorKind::Indexer(e) && failure.spec_retry_info() is None,
                    }
                },
            },
    {
        match answer {
            Ok(indexes) => {
                component.router.set_topology(indexes, self.nodes);
                RefreshStep::Done
            },
            Err(e) => {
                match endpoint_id {
                    Some(id) => {
                        let mut tried: Vec<String> = self.tried;
                        tried.push(id);
                        RefreshStep::TryAnother(Refresh { nodes: self.nodes, tried })
                    },
                    None => RefreshStep::Failed(Error::from(ErrorKind::Indexer(e))),
                }
            },
        }
    }
}

/// `uuid::Uuid::new_v4` in its `Display` form, which is the hyphenated one: 36
/// characters. Which they are is a matter of chance.
#[verifier::external_body]
fn fresh_id() -> (r: String)
    ensures
        r@.len() == 36,
{
    uuid::Uuid::new_v4().to_string()
}

/// What a scan needs next.
pub enum ScanStep {
    /// The index list read anew.
    Refresh,
    /// These hosts asked, all of them: a partial scatter reads part of an
    /// index.
    Open(Vec<Route>),
    /// The scan failed.
    Fail(Error),
}

/// A scan before its first entry.
pub struct IndexScan {
    index: IndexRef,
    consistency: Consistency,
    request_id: String,
    retried: bool,
}

/// What an attempt comes to: the routes where there are some, and else a
/// refresh if it was the first attempt.
pub open spec fn is_attempt(
    routing: Result<Seq<RouteView>, RouteError>,
    retried: bool,
    step: ScanStep,
    retried_then: bool,
) -> bool {
    match routing {
        Ok(routes) => {
            &&& retried_then == retried
            &&& step matches ScanStep::Open(found)
            &&& views(found@) == routes
            &&& found@.len() > 0
        },
        Err(e) => {
            &&& retried_then
            &&& if retried {
                step matches ScanStep::Fail(failure) && failure.spec_kind()
                    == ErrorKind::IndexRouting(e) && failure.spec_retry_info() is None
            } else {
                step is Refresh
            }
        },
    }
}

/// What a failure to open the hosts comes to: a refresh and one more attempt
/// where a fresher topology could help and it was the first.
pub open spec fn is_setback(e: Error, retried: bool, step: ScanStep, retried_then: bool) -> bool {
    if !retried && is_worth_refreshing(e.spec_kind()) {
        step is Refresh && retried_then
    } else {
        step == ScanStep::Fail(e) && retried_then == retried
    }
}

impl IndexScan {
    pub closed spec fn spec_index(&self) -> IndexRef {
        self.index
    }

    pub closed spec fn spec_consistency(&self) -> Consistency {
        self.consistency
    }

    pub closed spec fn spec_request_id(&self) -> Seq<char> {
        self.request_id@
    }

    /// Whether the one retry was used up.
    pub closed spec fn retried(&self) -> bool {
        self.retried
    }

    /// Whether both ask for the same, however often they were tried.
    pub open spec fn same_request(&self, other: &IndexScan) -> bool {
        self.spec_index() == other.spec_index() && self.spec_consistency()
            == other.spec_consistency() && self.spec_request_id() == other.spec_request_id()
    }

    /// Begins a scan, under the caller's name for it or else under a fresh one.
    /// Nothing is said of a fresh name but its length: it is a matter of chance.
    pub fn begin<P>(
        component: &mut IndexComponent<P>,
        bucket_name: &str,
        opts: &IndexScanOptions,
    ) -> (r: Result<(IndexScan, ScanStep), Error>)
        ensures
            final(component).set_up_as(old(component)),
            match r {
                Ok((scan, step)) => {
                    &&& is_consistency_of(opts.consistency, Ok(scan.spec_consistency()))
                    &&& scan.spec_index().bucket@ == bucket_name@
                    &&& scan.spec_index().scope@ == opts.scope_name@
                    &&& scan.spec_index().collection@ == opts.collection_name@
                    &&& scan.spec_index().name@ == opts.index_name@
                    &&& match opts.request_id {
                        Some(id) => scan.spec_request_id() == id@,
                        None => scan.spec_request_id().len() == 36,
                    }
                    &&& if old(component).router().is_current() {
                        is_attempt(
                            old(component).router().spec_routes(scan.spec_index()),
                            false,
                            step,
                            scan.retried(),
                        ) && final(component).router().routed_once(
                            &old(component).router(),
                            scan.spec_index(),
                        )
                    } else {
                        step is Refresh && !scan.retried() && final(component).router() == old(
                            component,
                        ).router()
                    }
                },
                Err(e) => is_consistency_of(opts.consistency, Err(e)) && final(component).router()
                    == old(component).router(),
            },
    {
        let request_id: String = match &opts.request_id {
            Some(id) => id.clone(),
            None => fresh_id(),
        };
        IndexScan::begin_as(component, bucket_name, opts, request_id)
    }

    /// Begins a scan under this name.
    pub fn begin_as<P>(
        component: &mut IndexComponent<P>,
        bucket_name: &str,
        opts: &IndexScanOptions,
        request_id: String,
    ) -> (r: Result<(IndexScan, ScanStep), Error>)
        ensures
            final(component).set_up_as(old(component)),
            match r {
                Ok((scan, step)) => {
                    &&& is_consistency_of(opts.consistency, Ok(scan.spec_consistency()))
                    &&& scan.spec_index().bucket@ == bucket_name@
                    &&& scan.spec_index().scope@ == opts.scope_name@
                    &&& scan.spec_index().collection@ == opts.collection_name@
                    &&& scan.spec_index().name@ == opts.index_name@
                    &&& scan.spec_request_id() == request_id@
                    &&& if old(component).router().is_current() {
                        is_attempt(
                            old(component).router().spec_routes(scan.spec_index()),
                            false,
                            step,
                            scan.retried(),
                        ) && final(component).router().routed_once(
                            &old(component).router(),
                            scan.spec_index(),
                        )
                    } else {
                        step is Refresh && !scan.retried() && final(component).router() == old(
                            component,
                        ).router()
                    }
                },
                Err(e) => is_consistency_of(opts.consistency, Err(e)) && final(component).router()
                    == old(component).router(),
            },
    {
        let index: IndexRef = IndexRef::new(
            bucket_name,
            opts.scope_name.as_str(),
            opts.collection_name.as_str(),
            opts.index_name.as_str(),
        );
        let consistency: Consistency = match consistency_from(&opts.consistency) {
            Ok(consistency) => consistency,
            Err(e) => {
                return Err(e);
            },
        };
        let mut scan: IndexScan = IndexScan { index, consistency, request_id, retried: false };
        if component.router.needs_refresh() {
            return Ok((scan, ScanStep::Refresh));
        }
        let step: ScanStep = scan.attempt(component);
        Ok((scan, step))
    }

    fn attempt<P>(&mut self, component: &mut IndexComponent<P>) -> (r: ScanStep)
        ensures
            is_attempt(
                old(component).router().spec_routes(old(self).spec_index()),
                old(self).retried(),
                r,
                final(self).retried(),
            ),
            final(self).same_request(old(self)),
            final(component).set_up_as(old(component)),
            final(component).router().routed_once(
                &old(component).router(),
                old(self).spec_index(),
            ),
    {
        let ghost before = component.router;
        match component.router.routes(&self.index) {
            Ok(routes) => {
                proof {
                    lemma_some_route(before, self.index);
                    assert(views(routes@).len() == routes@.len());
                }
                ScanStep::Open(routes)
            },
            Err(e) => {
                if self.retried {
                    ScanStep::Fail(Error::from(e))
                } else {
                    self.retried = true;
                    ScanStep::Refresh
                }
            },
        }
    }

    /// A refresh that this scan asked for came out. One that failed ends the
    /// scan; behind one that did not, the scan is attempted.
    pub fn refreshed<P>(
        &mut self,
        component: &mut IndexComponent<P>,
        outcome: Result<(), Error>,
    ) -> (r: ScanStep)
        ensures
            match outcome {
                Ok(_) => is_attempt(
                    old(component).router().spec_routes(old(self).spec_index()),
                    old(self).retried(),
                    r,
                    final(self).retried(),
                ) && final(component).router().routed_once(
                    &old(component).router(),
                    old(self).spec_index(),
                ),
                Err(e) => r == ScanStep::Fail(e) && final(self).retried() == old(self).retried()
                    && final(component).router() == old(component).router(),
            },
            final(self).same_request(old(self)),
            final(component).set_up_as(old(component)),
    {
        match outcome {
            Ok(_) => self.attempt(component),
            Err(e) => ScanStep::Fail(e),
        }
    }

    /// The hosts could not all be opened.
    pub fn not_opened(&mut self, e: Error) -> (r: ScanStep)
        ensures
            is_setback(e, old(self).retried(), r, final(self).retried()),
            final(self).same_request(old(self)),
    {
        if !self.retried && worth_refreshing(&e) {
            self.retried = true;
            ScanStep::Refresh
        } else {
            ScanStep::Fail(e)
        }
    }

    /// What to ask a host that the scan is routed to.
    pub fn request(&self, route: &Route, opts: &IndexScanOptions) -> (r: ScanOptions)
        ensures
            is_share(r, *route, *opts, self.spec_consistency(), self.spec_request_id()),
    {
        scan_options(route, opts, &self.consistency, self.request_id.as_str())
    }
}

/// Which index, and which copy of it, the routes read.
pub fn scanned_copy(routes: &Vec<Route>) -> (r: (u64, u64, u32))
    requires
        routes@.len() > 0,
    ensures
        r == (routes@[0].defn_id, routes@[0].inst_id, routes@[0].replica_id),
{
    (routes[0].defn_id, routes[0].inst_id, routes[0].replica_id)
}

/// A scan that is routed at all is routed somewhere.
proof fn lemma_some_route(router: IndexRouter, index: IndexRef)
    ensures
        router.spec_routes(index) matches Ok(routes) ==> routes.len() > 0,
{
    let ready = ready_rows(router.indexes(), index);
    let hosts = placements(chosen_rows(ready, router.cursor()));
    partition_order_is_a_reordering(routes_to(hosts, router.nodes()));
}

/// A scan is retried at most once, whatever goes wrong: behind the retry there
/// is no other refresh.
pub proof fn a_scan_is_retried_at_most_once(
    routing: Result<Seq<RouteView>, RouteError>,
    e: Error,
    step: ScanStep,
    retried_then: bool,
)
    requires
        is_attempt(routing, true, step, retried_then) || is_setback(e, true, step, retried_then),
    ensures
        !(step is Refresh),
        retried_then,
{
}

/// Only an error that a fresher topology could fix is answered with a retry.
pub proof fn only_a_stale_topology_is_worth_a_retry(
    e: Error,
    retried: bool,
    step: ScanStep,
    retried_then: bool,
)
    requires
        is_setback(e, retried, step, retried_then),
        step is Refresh,
    ensures
        is_worth_refreshing(e.spec_kind()),
        !retried && retried_then,
{
}

/// A host is asked under the index's own id for the scan that the caller
/// described. It is asked for its partitions where the index has some, and
/// where it has none, for no partition. A scan without a limit has the widest.
pub proof fn a_share_is_the_scan_that_was_described(
    r: ScanOptions,
    route: Route,
    opts: IndexScanOptions,
    consistency: Consistency,
    request_id: Seq<char>,
)
    requires
        is_share(r, route, opts, consistency, request_id),
    ensures
        r.defn_id == route.defn_id,
        r.request_id@ == request_id,
        route.partitioned ==> r.partitions@ == route.partitions@,
        !route.partitioned ==> r.partitions@.len() == 0,
        r.distinct == opts.distinct,
        r.offset == opts.offset,
        opts.limit matches Some(limit) ==> r.limit == limit,
        opts.limit is None ==> r.limit == 0x7fff_ffff_ffff_ffff,
        r.data_encoding == opts.data_encoding,
        r.user == opts.on_behalf_of,
        r.timeout == opts.timeout,
        r.scans@.len() == opts.scans@.len(),
        r.projection is Some <==> opts.projection is Some,
        opts.projection matches Some(p) ==> r.projection->0.entry_keys@ == p.entry_keys@
            && r.projection->0.primary_key == p.primary_key,
{
}

/// Two hosts that share a scan are asked for the same, but for the partitions.
pub proof fn hosts_share_one_scan(
    a: ScanOptions,
    b: ScanOptions,
    to_a: Route,
    to_b: Route,
    opts: IndexScanOptions,
    consistency: Consistency,
    request_id: Seq<char>,
)
    requires
        is_share(a, to_a, opts, consistency, request_id),
        is_share(b, to_b, opts, consistency, request_id),
    ensures
        a.request_id@ == b.request_id@,
        a.distinct == b.distinct,
        a.offset == b.offset,
        a.limit == b.limit,
        a.data_encoding == b.data_encoding,
        a.user == b.user,
        a.timeout == b.timeout,
        a.scans@.len() == b.scans@.len(),
        to_a.defn_id == to_b.defn_id <==> a.defn_id == b.defn_id,
{
}

/// Each entry of a vector is a token that the caller gave: the vbucket, the
/// sequence number and the vbuuid of one and the same, and none of that vbucket
/// is further.
pub proof fn an_entry_is_the_furthest_token_of_its_vbucket(
    tokens: Seq<MutationToken>,
    entries: Seq<ScanVectorEntry>,
    k: int,
) -> (i: int)
    requires
        is_vector_of(tokens, entries),
        0 <= k < entries.len(),
    ensures
        0 <= i < tokens.len(),
        entries[k].vbucket == tokens[i].spec_vbid(),
        entries[k].seqno == tokens[i].spec_seqno(),
        entries[k].vbuuid == tokens[i].spec_vbuuid(),
        forall|j: int|
            0 <= j < tokens.len() && (#[trigger] tokens[j]).spec_vbid() == entries[k].vbucket
                ==> tokens[j].spec_seqno() <= entries[k].seqno,
        forall|b: int|
            0 <= b < entries.len() && (#[trigger] entries[b]).vbucket == entries[k].vbucket ==> b
                == k,
{
    assert(is_of_latest(tokens, entries[k]));
    let i = choose|i: int| #[trigger] is_latest(tokens, i) && entries[k] == entry_of(tokens[i]);
    i
}

/// No vbucket that a token names is left out of the vector.
pub proof fn a_vbucket_that_was_written_to_has_an_entry(
    tokens: Seq<MutationToken>,
    entries: Seq<ScanVectorEntry>,
    i: int,
) -> (k: int)
    requires
        is_vector_of(tokens, entries),
        0 <= i < tokens.len(),
    ensures
        0 <= k < entries.len(),
        entries[k].vbucket == tokens[i].spec_vbid(),
        entries[k].seqno >= tokens[i].spec_seqno(),
{
    assert(is_named(entries, tokens[i].spec_vbid()));
    let k = choose|k: int|
        0 <= k < entries.len() && (#[trigger] entries[k]).vbucket == tokens[i].spec_vbid();
    a_vector_waits_for_every_token(tokens, entries, i, k);
    k
}

/// A caller gets the consistency that was asked for, or none: tokens give a
/// vector in which every entry has a vbuuid, and where they do not, an error.
pub proof fn a_consistency_is_the_one_asked_for(
    consistency: IndexScanConsistency,
    r: Result<Consistency, Error>,
)
    requires
        is_consistency_of(consistency, r),
    ensures
        consistency is Any ==> r == Ok::<Consistency, Error>(Consistency::Any),
        consistency is Session ==> r == Ok::<Consistency, Error>(Consistency::Session),
        consistency matches IndexScanConsistency::AtPlus(tokens) ==> match r {
            Ok(c) => c matches Consistency::Query(v) && forall|k: int|
                0 <= k < v@.len() ==> (#[trigger] v@[k]).vbuuid != 0,
            Err(e) => e.spec_kind() is InvalidArgument && exists|i: int|
                0 <= i < tokens@.len() && (#[trigger] tokens@[i]).spec_vbuuid() == 0,
        },
{
    if let IndexScanConsistency::AtPlus(tokens) = consistency {
        let entries = choose|entries: Seq<ScanVectorEntry>| #[trigger]
            is_vector_of(tokens@, entries) && if all_identified(entries) {
                r matches Ok(Consistency::Query(v)) && v@ == entries
            } else {
                r matches Err(e) && (e.spec_kind() matches ErrorKind::InvalidArgument {
                    msg,
                    arg: Some(arg),
                } && msg@ == "a scan vector entry with vbuuid 0 is silently ignored by the indexer"@
                    && arg@ == "consistency"@) && e.spec_retry_info() is None
            };
        if r is Err {
            let k = choose|k: int| 0 <= k < entries.len() && (#[trigger] entries[k]).vbuuid == 0;
            let i = an_entry_is_the_furthest_token_of_its_vbucket(tokens@, entries, k);
            assert(tokens@[i].spec_vbuuid() == 0);
        }
    }
}

/// An index that is routed is opened on every host of its route, at once. One
/// that is not is looked up anew, once, and what is wrong the second time is
/// what the caller is told.
pub proof fn an_attempt_opens_every_host_of_a_route(
    routing: Result<Seq<RouteView>, RouteError>,
    retried: bool,
    step: ScanStep,
    retried_then: bool,
)
    requires
        is_attempt(routing, retried, step, retried_then),
    ensures
        step is Open <==> routing is Ok,
        step is Refresh <==> routing is Err && !retried,
        step is Fail <==> routing is Err && retried,
        retried_then <==> retried || routing is Err,
        routing matches Ok(routes) ==> step->Open_0@.len() == routes.len() && forall|i: int|
            0 <= i < routes.len() ==> (#[trigger] step->Open_0@[i])@ == routes[i],
        step matches ScanStep::Fail(e) ==> e.spec_kind() == ErrorKind::IndexRouting(
            routing->Err_0,
        ),
{
    if let Ok(routes) = routing {
        let found = step->Open_0;
        assert(views(found@).len() == found@.len());
        assert forall|i: int| 0 <= i < routes.len() implies (#[trigger] found@[i])@ == routes[i] by {
            assert(views(found@)[i] == found@[i]@);
        }
    }
}

/// A host that turns out not to have its share is looked up anew, once. Any
/// other failure is the caller's, as it is.
pub proof fn a_setback_is_the_caller_s_unless_it_is_stale(
    e: Error,
    retried: bool,
    step: ScanStep,
    retried_then: bool,
)
    requires
        is_setback(e, retried, step, retried_then),
    ensures
        step is Refresh <==> !retried && match e.spec_kind() {
            ErrorKind::IndexRouting(_) => true,
            ErrorKind::Indexer(cause) => match cause.spec_kind() {
                indexerx::error::ErrorKind::Server(s) => s.condition()
                    == indexerx::error::ServerCondition::NotMyPartition,
                _ => false,
            },
            _ => false,
        },
        !(step is Refresh) ==> step == ScanStep::Fail(e) && retried_then == retried,
{
}

/// An address has a pool where one was added for that host and port, and it is
/// the first that was.
pub proof fn a_pool_is_that_of_its_host_and_port<P>(
    pools: Seq<(Address, P)>,
    address: Address,
) -> (i: int)
    ensures
        match first_pool(pools, address) {
            Some(pool) => {
                &&& 0 <= i < pools.len()
                &&& pools[i].1 == pool
                &&& pools[i].0.host@ == address.host@
                &&& pools[i].0.port == address.port
                &&& forall|j: int|
                    0 <= j < i ==> (#[trigger] pools[j]).0.host@ != address.host@
                        || pools[j].0.port != address.port
            },
            None => forall|j: int|
                0 <= j < pools.len() ==> (#[trigger] pools[j]).0.host@ != address.host@
                    || pools[j].0.port != address.port,
        },
    decreases pools.len(),
{
    if pools.len() == 0 || pools[0].0.same_as(&address) {
        0
    } else {
        let rest = pools.drop_first();
        let k = a_pool_is_that_of_its_host_and_port(rest, address);
        assert forall|j: int|
            0 <= j < pools.len() && (first_pool(pools, address) is None || j < k + 1) implies (
        #[trigger] pools[j]).0.host@ != address.host@ || pools[j].0.port != address.port by {
            if j > 0 {
                assert(pools[j] == rest[j - 1]);
            }
        }
        k + 1
    }
}

/// An operation on the component leaves alone what it is not about: the nodes,
/// the credentials, the endpoints and the pools.
pub proof fn what_is_set_up_alike_is_alike<P>(a: IndexComponent<P>, b: IndexComponent<P>)
    requires
        a.set_up_as(&b),
    ensures
        a.nodes() == b.nodes(),
        a.spec_id() == b.spec_id(),
        a.spec_authenticator() == b.spec_authenticator(),
        a.spec_tls_config() == b.spec_tls_config(),
        a.spec_endpoints() == b.spec_endpoints(),
        a.pools() == b.pools(),
        a.keep_alive() == b.keep_alive(),
{
}

} // verus!
