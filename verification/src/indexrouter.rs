//! Which indexer holds which piece of an index, and the routing decisions that
//! can be taken from that.
//!
//! The index listing names nodes by their management port; a scan goes to
//! another one. [`NodeMap`] is that join, taken from one cluster config.
use vstd::prelude::*;
use vstd::string::*;
use crate::address::{host_and_port, join_host_port, Address};
use crate::error;
use crate::indexerx;
use crate::indexerx::error::ServerCondition;
use crate::indexerx::status::{declared_in, IndexStatus};
use crate::parsedconfig::{
    is_node_at, reached_at, reached_nodes, NetworkConfig, NetworkConfigNode, ParsedConfig,
    ParsedConfigNode,
};
use crate::sorting::{
    counts_up, is_sorted, lemma_one_each, less_list, list_less, list_less_is_total,
    list_less_is_transitive, one_each_up_to, sort_numbers, strictly_ascending,
};
use crate::string_map::{lemma_map_of, listed_at, map_of, StringMap};
use crate::text::{decimal, owned, push_decimal, same_text};

verus! {

/// Where each node's scan port is, keyed the way the index listing names
/// nodes: by canonical host and management port. The address is the one to
/// dial, which is that of the network in use.
#[derive(Debug)]
pub struct NodeMap {
    scan_addresses: StringMap<Address>,
}

/// A host and a port, apart from how they are stored.
pub struct Dial {
    pub host: Seq<char>,
    pub port: u16,
}

pub open spec fn dial_of(a: Address) -> Dial {
    Dial { host: a.host@, port: a.port }
}

/// What one node adds to the map: nothing unless it has both ports.
pub open spec fn with_node(
    map: Map<Seq<char>, Dial>,
    node: (String, Option<u16>, String, Option<u16>),
) -> Map<Seq<char>, Dial> {
    if node.1 is Some && node.3 is Some {
        map.insert(
            host_and_port(node.0@, node.1->0),
            Dial { host: node.2@, port: node.3->0 },
        )
    } else {
        map
    }
}

/// The map of these nodes; a later node of the same name wins.
pub open spec fn node_map_of(nodes: Seq<(String, Option<u16>, String, Option<u16>)>) -> Map<
    Seq<char>,
    Dial,
>
    decreases nodes.len(),
{
    if nodes.len() == 0 {
        Map::empty()
    } else {
        with_node(node_map_of(nodes.drop_last()), nodes.last())
    }
}

/// What one node of a network adds to the map. The scan port is read from
/// either set of ports.
pub open spec fn with_network_node(
    map: Map<Seq<char>, Dial>,
    node: NetworkConfigNode,
) -> Map<Seq<char>, Dial> {
    let scan = match node.non_ssl_ports.index_scan {
        Some(p) => Some(p),
        None => node.ssl_ports.index_scan,
    };
    if node.canonical_node_info.non_ssl_ports.mgmt is Some && scan is Some {
        map.insert(
            host_and_port(
                node.canonical_node_info.hostname@,
                node.canonical_node_info.non_ssl_ports.mgmt->0,
            ),
            Dial { host: node.hostname@, port: scan->0 },
        )
    } else {
        map
    }
}

pub open spec fn network_map_of(nodes: Seq<NetworkConfigNode>) -> Map<Seq<char>, Dial>
    decreases nodes.len(),
{
    if nodes.len() == 0 {
        Map::empty()
    } else {
        with_network_node(network_map_of(nodes.drop_last()), nodes.last())
    }
}

/// What one node of a config adds to the map, reached over a network.
pub open spec fn with_reached(
    map: Map<Seq<char>, Dial>,
    node: ParsedConfigNode,
    network_type: Seq<char>,
) -> Map<Seq<char>, Dial> {
    let at = reached_at(node, network_type)->0;
    let mgmt = node.addresses.non_ssl_ports.mgmt;
    let scan = match at.non_ssl_ports.index_scan {
        Some(p) => Some(p),
        None => at.ssl_ports.index_scan,
    };
    if mgmt is Some && scan is Some {
        map.insert(
            host_and_port(node.addresses.hostname@, mgmt->0),
            Dial { host: at.hostname@, port: scan->0 },
        )
    } else {
        map
    }
}

/// The map of the nodes that a network reaches.
pub open spec fn config_map_of(reached: Seq<ParsedConfigNode>, network_type: Seq<char>) -> Map<
    Seq<char>,
    Dial,
>
    decreases reached.len(),
{
    if reached.len() == 0 {
        Map::empty()
    } else {
        with_reached(
            config_map_of(reached.drop_last(), network_type),
            reached.last(),
            network_type,
        )
    }
}

proof fn lemma_config_map(
    out: Seq<NetworkConfigNode>,
    reached: Seq<ParsedConfigNode>,
    network_type: Seq<char>,
)
    requires
        out.len() == reached.len(),
        forall|i: int|
            0 <= i < out.len() ==> is_node_at(
                #[trigger] out[i],
                reached[i],
                reached_at(reached[i], network_type)->0,
            ),
    ensures
        network_map_of(out) == config_map_of(reached, network_type),
    decreases out.len(),
{
    if out.len() > 0 {
        lemma_config_map(out.drop_last(), reached.drop_last(), network_type);
        let last = out.len() - 1;
        assert(is_node_at(out[last], reached[last], reached_at(reached[last], network_type)->0));
    }
}

impl View for NodeMap {
    type V = Map<Seq<char>, Dial>;

    closed spec fn view(&self) -> Map<Seq<char>, Dial> {
        self.scan_addresses@.map_values(|a: Address| dial_of(a))
    }
}

impl Clone for NodeMap {
    fn clone(&self) -> (r: NodeMap)
        ensures
            r@ == self@,
    {
        let entries: &Vec<(String, Address)> = self.scan_addresses.entries();
        let ghost all = self.scan_addresses.listing();
        let mut scan_addresses: StringMap<Address> = StringMap::new();
        let mut i: usize = 0;
        while i < entries.len()
            invariant
                i <= entries.len(),
                entries@ == all,
                scan_addresses@ == map_of(all.take(i as int)),
            decreases entries.len() - i,
        {
            scan_addresses.insert(entries[i].0.clone(), entries[i].1.clone());
            assert(all.take(i + 1).drop_last() =~= all.take(i as int));
            i += 1;
        }
        assert(all.take(all.len() as int) =~= all);
        NodeMap { scan_addresses }
    }
}

impl Default for NodeMap {
    /// A map without nodes.
    fn default() -> (r: NodeMap)
        ensures
            r@ == Map::<Seq<char>, Dial>::empty(),
    {
        let r: NodeMap = NodeMap { scan_addresses: StringMap::new() };
        assert(r@ =~= Map::<Seq<char>, Dial>::empty());
        r
    }
}

impl NodeMap {
    /// Builds the map from each node's canonical name, management port, host
    /// to dial and scan port. A node that lacks one of the ports is absent.
    pub fn from_nodes(nodes: Vec<(String, Option<u16>, String, Option<u16>)>) -> (r: NodeMap)
        ensures
            r@ == node_map_of(nodes@),
    {
        let ghost all = nodes@;
        let mut scan_addresses: StringMap<Address> = StringMap::new();
        let mut i: usize = 0;
        assert(scan_addresses@.map_values(|a: Address| dial_of(a)) =~= Map::<
            Seq<char>,
            Dial,
        >::empty());
        assert(all.take(0) =~= Seq::<(String, Option<u16>, String, Option<u16>)>::empty());
        while i < nodes.len()
            invariant
                i <= nodes.len(),
                nodes@ == all,
                scan_addresses@.map_values(|a: Address| dial_of(a)) == node_map_of(
                    all.take(i as int),
                ),
            decreases nodes.len() - i,
        {
            proof {
                assert(all.take(i + 1).drop_last() =~= all.take(i as int));
                assert(all.take(i + 1).last() == all[i as int]);
            }
            let ghost before = scan_addresses@;
            match (nodes[i].1, nodes[i].3) {
                (Some(mgmt), Some(port)) => {
                    let key: String = join_host_port(nodes[i].0.as_str(), mgmt);
                    let address: Address = Address { host: nodes[i].2.clone(), port };
                    scan_addresses.insert(key, address);
                    assert(scan_addresses@.map_values(|a: Address| dial_of(a))
                        =~= before.map_values(|a: Address| dial_of(a)).insert(
                        key@,
                        dial_of(address),
                    ));
                },
                _ => {},
            }
            i += 1;
        }
        assert(all.take(all.len() as int) =~= all);
        NodeMap { scan_addresses }
    }

    /// The map of the nodes that a network reaches. Whether a connection is
    /// over TLS is not decided here: the scan port is the same either way.
    pub fn from_config(config: &ParsedConfig, network_type: &str) -> (r: NodeMap)
        ensures
            r@ == config_map_of(reached_nodes(config.nodes@, network_type@), network_type@),
    {
        let network: NetworkConfig = config.addresses_group_for_network_type(network_type);
        proof {
            lemma_config_map(
                network.nodes@,
                reached_nodes(config.nodes@, network_type@),
                network_type@,
            );
        }
        NodeMap::from_network(&network)
    }

    /// The map of a network's nodes.
    pub fn from_network(network: &NetworkConfig) -> (r: NodeMap)
        ensures
            r@ == network_map_of(network.nodes@),
    {
        let mut nodes: Vec<(String, Option<u16>, String, Option<u16>)> = Vec::new();
        let mut i: usize = 0;
        assert(network.nodes@.take(0) =~= Seq::<NetworkConfigNode>::empty());
        while i < network.nodes.len()
            invariant
                i <= network.nodes.len(),
                node_map_of(nodes@) == network_map_of(network.nodes@.take(i as int)),
            decreases network.nodes.len() - i,
        {
            let node: &NetworkConfigNode = &network.nodes[i];
            let scan: Option<u16> = match node.non_ssl_ports.index_scan {
                Some(p) => Some(p),
                None => node.ssl_ports.index_scan,
            };
            let ghost before = nodes@;
            nodes.push(
                (
                    node.canonical_node_info.hostname.clone(),
                    node.canonical_node_info.non_ssl_ports.mgmt,
                    node.hostname.clone(),
                    scan,
                ),
            );
            proof {
                assert(nodes@.drop_last() =~= before);
                assert(network.nodes@.take(i + 1).drop_last() =~= network.nodes@.take(i as int));
                assert(network.nodes@.take(i + 1).last() == *node);
            }
            i += 1;
        }
        assert(network.nodes@.take(network.nodes@.len() as int) =~= network.nodes@);
        NodeMap::from_nodes(nodes)
    }

    /// The scan port of a node named the way the index listing names it.
    pub fn scan_address(&self, mgmt_host: &str) -> (r: Option<&Address>)
        ensures
            r is Some <==> self@.contains_key(mgmt_host@),
            r is Some ==> dial_of(*r->0) == self@[mgmt_host@],
    {
        self.scan_addresses.get(mgmt_host)
    }

    pub fn is_empty(&self) -> (r: bool)
        ensures
            r == (self@.dom() == Set::<Seq<char>>::empty()),
    {
        let r: bool = self.scan_addresses.is_empty();
        proof {
            assert(self@.dom() =~= self.scan_addresses@.dom());
            if self@.dom() == Set::<Seq<char>>::empty() {
                assert(self.scan_addresses@ =~= Map::<Seq<char>, Address>::empty());
            }
        }
        r
    }

    pub fn len(&self) -> (r: usize)
        ensures
            self@.dom().finite(),
            r == self@.dom().len(),
    {
        assert(self@.dom() =~= self.scan_addresses@.dom());
        self.scan_addresses.len()
    }
}

impl vstd::std_specs::cmp::PartialEqSpecImpl for NodeMap {
    open spec fn obeys_eq_spec() -> bool {
        true
    }

    open spec fn eq_spec(&self, other: &NodeMap) -> bool {
        self@ == other@
    }
}

/// Two maps are the same where they name the same nodes and dial them at the
/// same addresses.
impl PartialEq for NodeMap {
    fn eq(&self, other: &NodeMap) -> (r: bool) {
        proof {
            assert(self@.dom() =~= self.scan_addresses@.dom());
            assert(other@.dom() =~= other.scan_addresses@.dom());
        }
        if !self.scan_addresses.same_keys(&other.scan_addresses) {
            return false;
        }
        let entries: &Vec<(String, Address)> = self.scan_addresses.entries();
        proof {
            lemma_map_of(entries@);
        }
        let mut i: usize = 0;
        while i < entries.len()
            invariant
                i <= entries.len(),
                entries@ == self.scan_addresses.listing(),
                self@.dom() == other@.dom(),
                self@.dom() == self.scan_addresses@.dom(),
                other@.dom() == other.scan_addresses@.dom(),
                forall|j: int|
                    0 <= j < entries@.len() ==> self.scan_addresses@.contains_key(
                        (#[trigger] entries@[j]).0@,
                    ) && self.scan_addresses@[entries@[j].0@] == entries@[j].1,
                forall|j: int|
                    0 <= j < i ==> self@[(#[trigger] entries@[j]).0@] == other@[entries@[j].0@],
            decreases entries.len() - i,
        {
            assert(self@.dom().contains(entries@[i as int].0@));
            let same: bool = match other.scan_address(entries[i].0.as_str()) {
                Some(a) => a.same(&entries[i].1),
                None => false,
            };
            if !same {
                return false;
            }
            i += 1;
        }
        proof {
            assert(self@ =~= other@) by {
                assert forall|k: Seq<char>| self@.contains_key(k) implies self@[k] == other@[k] by {
                    assert(self.scan_addresses@.dom().contains(k));
                    assert(map_of(entries@).contains_key(k));
                    let j = choose|j: int| listed_at(entries@, k, j);
                    assert(entries@[j].0@ == k);
                }
            }
        }
        true
    }
}

impl Eq for NodeMap {

}

/// What a scan needs to be routed: the index by name, in its keyspace.
#[derive(Debug, PartialEq, Eq)]
pub struct IndexRef {
    pub bucket: String,
    pub scope: String,
    pub collection: String,
    pub name: String,
}

impl Clone for IndexRef {
    fn clone(&self) -> (r: IndexRef)
        ensures
            r == *self,
    {
        IndexRef {
            bucket: self.bucket.clone(),
            scope: self.scope.clone(),
            collection: self.collection.clone(),
            name: self.name.clone(),
        }
    }
}

impl IndexRef {
    pub fn new(bucket: &str, scope: &str, collection: &str, name: &str) -> (r: IndexRef)
        ensures
            r.bucket@ == bucket@,
            r.scope@ == scope@,
            r.collection@ == collection@,
            r.name@ == name@,
    {
        IndexRef {
            bucket: owned(bucket),
            scope: owned(scope),
            collection: owned(collection),
            name: owned(name),
        }
    }

    pub open spec fn text(&self) -> Seq<char> {
        self.name@ + " on "@ + self.bucket@ + "."@ + self.scope@ + "."@ + self.collection@
    }

    /// How the reference reads: the name, and the keyspace it is on.
    pub fn message(&self) -> (r: String)
        ensures
            r@ == self.text(),
    {
        let mut r: String = self.name.clone();
        r.append(" on ");
        r.append(self.bucket.as_str());
        r.append(".");
        r.append(self.scope.as_str());
        r.append(".");
        r.append(self.collection.as_str());
        r
    }
}

/// A routing decision: which instance, on which port, holding which
/// partitions.
#[derive(Debug, Clone, PartialEq, Eq)]
pub struct Route {
    /// What the scan request addresses.
    pub defn_id: u64,
    /// Which copy of the index this is a piece of.
    pub inst_id: u64,
    pub replica_id: u32,
    pub scan_address: Address,
    /// Whether the index is partitioned at all. A partitioned index is asked
    /// for partitions by number, another for nothing in particular.
    pub partitioned: bool,
    /// The partitions this host holds: `[0]` for an index that is not
    /// partitioned.
    pub partitions: Vec<u64>,
}

/// A route, apart from how it is stored.
pub struct RouteView {
    pub defn_id: u64,
    pub inst_id: u64,
    pub replica_id: u32,
    pub scan_address: Dial,
    pub partitioned: bool,
    pub partitions: Seq<u64>,
}

impl View for Route {
    type V = RouteView;

    open spec fn view(&self) -> RouteView {
        RouteView {
            defn_id: self.defn_id,
            inst_id: self.inst_id,
            replica_id: self.replica_id,
            scan_address: dial_of(self.scan_address),
            partitioned: self.partitioned,
            partitions: self.partitions@,
        }
    }
}

/// Why a scan could not be routed. Every variant is a statement about the
/// topology snapshot.
#[derive(Debug, Clone, PartialEq, Eq)]
#[non_exhaustive]
pub enum RouteError {
    /// No instance of that name in that keyspace, ready or otherwise.
    IndexNotFound(IndexRef),
    /// Instances exist but none is ready.
    IndexNotReady(IndexRef),
    /// The partitions the chosen replica reports do not add up to the index.
    PartitionsMissing { index: IndexRef, held: usize, want: usize },
    /// Two hosts claim the same partition.
    PartitionClaimedTwice { index: IndexRef, partition: u64 },
    /// The listing named a node that the cluster config does not know.
    UnknownNode(String),
    /// No listing has been read yet, or the config moved the nodes since.
    NoTopology,
}

impl IndexRef {
    /// Whether both name the same index.
    pub open spec fn same_as(&self, other: &IndexRef) -> bool {
        &&& self.bucket@ == other.bucket@
        &&& self.scope@ == other.scope@
        &&& self.collection@ == other.collection@
        &&& self.name@ == other.name@
    }

    pub fn same(&self, other: &IndexRef) -> (r: bool)
        ensures
            r == self.same_as(other),
    {
        same_text(self.bucket.as_str(), other.bucket.as_str()) && same_text(
            self.scope.as_str(),
            other.scope.as_str(),
        ) && same_text(self.collection.as_str(), other.collection.as_str()) && same_text(
            self.name.as_str(),
            other.name.as_str(),
        )
    }
}

impl RouteError {
    /// Whether both are the same disagreement.
    pub open spec fn same_as(&self, other: &RouteError) -> bool {
        match (*self, *other) {
            (RouteError::IndexNotFound(a), RouteError::IndexNotFound(b)) => a.same_as(&b),
            (RouteError::IndexNotReady(a), RouteError::IndexNotReady(b)) => a.same_as(&b),
            (
                RouteError::PartitionsMissing { index: a, held: h, want: w },
                RouteError::PartitionsMissing { index: b, held: k, want: v },
            ) => a.same_as(&b) && h == k && w == v,
            (
                RouteError::PartitionClaimedTwice { index: a, partition: p },
                RouteError::PartitionClaimedTwice { index: b, partition: q },
            ) => a.same_as(&b) && p == q,
            (RouteError::UnknownNode(a), RouteError::UnknownNode(b)) => a@ == b@,
            (RouteError::NoTopology, RouteError::NoTopology) => true,
            _ => false,
        }
    }

    pub fn same(&self, other: &RouteError) -> (r: bool)
        ensures
            r == self.same_as(other),
    {
        match (self, other) {
            (RouteError::IndexNotFound(a), RouteError::IndexNotFound(b)) => a.same(b),
            (RouteError::IndexNotReady(a), RouteError::IndexNotReady(b)) => a.same(b),
            (
                RouteError::PartitionsMissing { index: a, held: h, want: w },
                RouteError::PartitionsMissing { index: b, held: k, want: v },
            ) => a.same(b) && *h == *k && *w == *v,
            (
                RouteError::PartitionClaimedTwice { index: a, partition: p },
                RouteError::PartitionClaimedTwice { index: b, partition: q },
            ) => a.same(b) && *p == *q,
            (RouteError::UnknownNode(a), RouteError::UnknownNode(b)) => same_text(
                a.as_str(),
                b.as_str(),
            ),
            (RouteError::NoTopology, RouteError::NoTopology) => true,
            _ => false,
        }
    }

    /// Whether a fresher topology could turn this into a route: always, for
    /// each is a disagreement between what was last read and what the cluster
    /// now is.
    pub fn worth_refreshing(&self) -> (r: bool)
        ensures
            r,
    {
        match self {
            RouteError::IndexNotFound(_) => true,
            RouteError::IndexNotReady(_) => true,
            RouteError::PartitionsMissing { index: _, held: _, want: _ } => true,
            RouteError::PartitionClaimedTwice { index: _, partition: _ } => true,
            RouteError::UnknownNode(_) => true,
            RouteError::NoTopology => true,
        }
    }

    pub open spec fn text(&self) -> Seq<char> {
        match self {
            RouteError::IndexNotFound(r) => "no index "@ + r.text(),
            RouteError::IndexNotReady(r) => "index "@ + r.text()
                + " exists but no instance is ready"@,
            RouteError::PartitionsMissing { index, held, want } => "index "@ + index.text()
                + " reports "@ + decimal(*held as nat) + " of its "@ + decimal(*want as nat)
                + " partitions; the rest are on no host this scan could reach"@,
            RouteError::PartitionClaimedTwice { index, partition } => "index "@ + index.text()
                + " has partition "@ + decimal(*partition as nat)
                + " on two hosts, so a scan of it would read that partition twice"@,
            RouteError::UnknownNode(host) => "node "@ + host@ + " is not in the cluster config"@,
            RouteError::NoTopology => "no index topology has been read yet"@,
        }
    }

    /// How the error reads.
    pub fn message(&self) -> (r: String)
        ensures
            r@ == self.text(),
    {
        match self {
            RouteError::IndexNotFound(index) => owned("no index ").concat(
                index.message().as_str(),
            ),
            RouteError::IndexNotReady(index) => {
                let mut r: String = owned("index ");
                r.append(index.message().as_str());
                r.append(" exists but no instance is ready");
                r
            },
            RouteError::PartitionsMissing { index, held, want } => {
                let mut r: String = owned("index ");
                r.append(index.message().as_str());
                r.append(" reports ");
                push_decimal(&mut r, *held as u64);
                r.append(" of its ");
                push_decimal(&mut r, *want as u64);
                r.append(" partitions; the rest are on no host this scan could reach");
                r
            },
            RouteError::PartitionClaimedTwice { index, partition } => {
                let mut r: String = owned("index ");
                r.append(index.message().as_str());
                r.append(" has partition ");
                push_decimal(&mut r, *partition);
                r.append(" on two hosts, so a scan of it would read that partition twice");
                r
            },
            RouteError::UnknownNode(host) => {
                let mut r: String = owned("node ");
                r.append(host.as_str());
                r.append(" is not in the cluster config");
                r
            },
            RouteError::NoTopology => owned("no index topology has been read yet"),
        }
    }
}

/// Whether the row is one of this index's, ready or not.
pub open spec fn is_row_of(s: IndexStatus, index: IndexRef) -> bool {
    &&& s.index_name@ == index.name@
    &&& s.bucket@ == index.bucket@
    &&& s.scope@ == index.scope@
    &&& s.collection@ == index.collection@
}

/// The index's rows that can serve a scan, in the order of the listing.
pub open spec fn ready_rows(indexes: Seq<IndexStatus>, index: IndexRef) -> Seq<IndexStatus> {
    indexes.filter(|s: IndexStatus| s.ready() && is_row_of(s, index))
}

/// The instances that rows belong to, in the order of their first row.
pub open spec fn instance_ids(rows: Seq<IndexStatus>) -> Seq<u64>
    decreases rows.len(),
{
    if rows.len() == 0 {
        Seq::empty()
    } else {
        let before = instance_ids(rows.drop_last());
        if before.contains(rows.last().inst_id) {
            before
        } else {
            before.push(rows.last().inst_id)
        }
    }
}

/// One copy of the index: the rows that share an instance id.
pub open spec fn rows_of_instance(rows: Seq<IndexStatus>, inst_id: u64) -> Seq<IndexStatus> {
    rows.filter(|s: IndexStatus| s.inst_id == inst_id)
}

/// A host of a row with the partitions it holds.
pub struct Placement {
    pub row: IndexStatus,
    pub host: String,
    pub partitions: Seq<u64>,
}

/// The hosts of one row.
pub open spec fn row_placements(row: IndexStatus) -> Seq<Placement> {
    row.partition_map.listing().map_values(
        |e: (String, Vec<u64>)| Placement { row, host: e.0, partitions: e.1@ },
    )
}

/// The hosts of all rows, row by row.
pub open spec fn placements(rows: Seq<IndexStatus>) -> Seq<Placement>
    decreases rows.len(),
{
    if rows.len() == 0 {
        Seq::empty()
    } else {
        placements(rows.drop_last()) + row_placements(rows.last())
    }
}

/// The first host that the node map does not know.
pub open spec fn first_unknown(ps: Seq<Placement>, nodes: Map<Seq<char>, Dial>) -> Option<String>
    decreases ps.len(),
{
    if ps.len() == 0 {
        None
    } else if !nodes.contains_key(ps[0].host@) {
        Some(ps[0].host)
    } else {
        first_unknown(ps.skip(1), nodes)
    }
}

/// The route to a host.
pub open spec fn route_to(p: Placement, nodes: Map<Seq<char>, Dial>) -> RouteView {
    RouteView {
        defn_id: p.row.defn_id,
        inst_id: p.row.inst_id,
        replica_id: p.row.replica_id,
        scan_address: nodes[p.host@],
        partitioned: p.row.partitioned,
        partitions: p.partitions,
    }
}

pub open spec fn routes_to(ps: Seq<Placement>, nodes: Map<Seq<char>, Dial>) -> Seq<RouteView> {
    ps.map_values(|p: Placement| route_to(p, nodes))
}

/// Every partition that the routes claim, route by route.
pub open spec fn claimed(routes: Seq<RouteView>) -> Seq<u64>
    decreases routes.len(),
{
    if routes.len() == 0 {
        Seq::empty()
    } else {
        claimed(routes.drop_last()) + routes.last().partitions
    }
}

/// `p` is the smallest number that occurs twice or more.
pub open spec fn is_first_repeat(s: Seq<u64>, p: u64) -> bool {
    &&& s.to_multiset().count(p) >= 2
    &&& forall|q: u64| #[trigger] s.to_multiset().count(q) >= 2 ==> p <= q
}

/// Whether any row says that the index is partitioned.
pub open spec fn any_partitioned(rows: Seq<IndexStatus>) -> bool {
    exists|i: int| 0 <= i < rows.len() && (#[trigger] rows[i]).partitioned
}

/// The partition count that the first row to name one declares.
pub open spec fn first_declared(rows: Seq<IndexStatus>) -> Option<u32>
    decreases rows.len(),
{
    if rows.len() == 0 {
        None
    } else {
        match first_declared(rows.drop_last()) {
            Some(n) => Some(n),
            None => declared_in(rows.last().definition@),
        }
    }
}

/// The largest of the numbers, 0 where there are none.
pub open spec fn largest(s: Seq<u64>) -> u64
    decreases s.len(),
{
    if s.len() == 0 {
        0
    } else if largest(s.drop_last()) > s.last() {
        largest(s.drop_last())
    } else {
        s.last()
    }
}

/// How many partitions the index should have: one where it is not partitioned,
/// else as many as its statement declares, else up to the highest one claimed.
pub open spec fn wanted(rows: Seq<IndexStatus>, parts: Seq<u64>) -> usize {
    if !any_partitioned(rows) {
        1
    } else {
        match first_declared(rows) {
            Some(n) => n as usize,
            None => largest(parts) as usize,
        }
    }
}

/// The routes are the whole index, exactly once: partition 0 alone of an index
/// that is not partitioned, else each of `1..=wanted` once and no others.
pub open spec fn is_complete(rows: Seq<IndexStatus>, parts: Seq<u64>) -> bool {
    if any_partitioned(rows) {
        one_each_up_to(parts, wanted(rows, parts) as nat)
    } else {
        parts == seq![0u64]
    }
}

/// Some number occurs twice or more.
pub open spec fn has_repeat(s: Seq<u64>) -> bool {
    exists|p: u64| #[trigger] s.to_multiset().count(p) >= 2
}

/// Whether the routes cover the index, and why not.
pub open spec fn coverage(index: IndexRef, rows: Seq<IndexStatus>, parts: Seq<u64>) -> Result<
    (),
    RouteError,
> {
    if has_repeat(parts) {
        Err(
            RouteError::PartitionClaimedTwice {
                index,
                partition: choose|p: u64| is_first_repeat(parts, p),
            },
        )
    } else if is_complete(rows, parts) {
        Ok(())
    } else {
        Err(
            RouteError::PartitionsMissing {
                index,
                held: parts.len() as usize,
                want: wanted(rows, parts),
            },
        )
    }
}

proof fn lemma_largest(s: Seq<u64>)
    ensures
        s.len() > 0 ==> s.contains(largest(s)),
        forall|i: int| 0 <= i < s.len() ==> #[trigger] s[i] <= largest(s),
    decreases s.len(),
{
    if s.len() > 0 {
        let front = s.drop_last();
        lemma_largest(front);
        assert forall|i: int| 0 <= i < s.len() implies #[trigger] s[i] <= largest(s) by {
            if i < front.len() {
                assert(front[i] <= largest(front));
            }
        }
        if largest(front) > s.last() {
            if front.len() == 0 {
            } else {
                let k = choose|k: int| 0 <= k < front.len() && front[k] == largest(front);
                assert(s[k] == largest(s));
            }
        } else {
            assert(s[s.len() - 1] == largest(s));
        }
    }
}

proof fn lemma_same_numbers(a: Seq<u64>, b: Seq<u64>)
    requires
        a.to_multiset() == b.to_multiset(),
    ensures
        a.len() == b.len(),
        largest(a) == largest(b),
        forall|x: u64| a.contains(x) <==> b.contains(x),
{
    a.to_multiset_ensures();
    b.to_multiset_ensures();
    assert forall|x: u64| a.contains(x) <==> b.contains(x) by {
        assert(a.contains(x) <==> a.to_multiset().count(x) > 0);
        assert(b.contains(x) <==> b.to_multiset().count(x) > 0);
    }
    lemma_largest(a);
    lemma_largest(b);
    if a.len() > 0 {
        assert(b.contains(largest(a)));
        assert(a.contains(largest(b)));
        let i = choose|i: int| 0 <= i < b.len() && b[i] == largest(a);
        let j = choose|j: int| 0 <= j < a.len() && a[j] == largest(b);
        assert(b[i] <= largest(b));
        assert(a[j] <= largest(a));
    }
}

/// In ascending order a number that occurs twice stands beside itself.
proof fn lemma_repeat_is_adjacent(s: Seq<u64>, p: u64)
    requires
        is_sorted(s),
        s.to_multiset().count(p) >= 2,
    ensures
        exists|i: int| 0 <= i && i + 1 < s.len() && #[trigger] s[i] == p && s[i + 1] == p,
    decreases s.len(),
{
    s.to_multiset_ensures();
    if s.len() > 0 {
        let front = s.drop_last();
        front.to_multiset_ensures();
        assert(front.push(s.last()) =~= s);
        assert(s.to_multiset() =~= front.to_multiset().insert(s.last()));
        if s.last() != p {
            assert(front.to_multiset().count(p) >= 2);
            lemma_repeat_is_adjacent(front, p);
            let i = choose|i: int|
                0 <= i && i + 1 < front.len() && #[trigger] front[i] == p && front[i + 1] == p;
            assert(s[i] == p && s[i + 1] == p);
        } else {
            assert(front.to_multiset().count(p) >= 1);
            assert(front.contains(p));
            let k = choose|k: int| 0 <= k < front.len() && front[k] == p;
            assert(s[k] <= s[s.len() - 2] && s[s.len() - 2] <= s[s.len() - 1]);
            assert(s[s.len() - 2] == p);
        }
    }
}

proof fn lemma_adjacent_is_repeat(s: Seq<u64>, i: int)
    requires
        0 <= i,
        i + 1 < s.len(),
        s[i] == s[i + 1],
    ensures
        s.to_multiset().count(s[i]) >= 2,
{
    s.to_multiset_ensures();
    let rest = s.remove(i);
    rest.to_multiset_ensures();
    assert(rest[i] == s[i + 1]);
    assert(rest.contains(s[i]));
    assert(rest.to_multiset().count(s[i]) > 0);
    assert(s.contains(s[i]));
    assert(s.to_multiset().count(s[i]) > 0);
    assert(rest.to_multiset() == s.to_multiset().remove(s[i]));
}

/// Whether these routes are the whole index, exactly once.
///
/// Partitions are addressed by number, so one that no route claims is one
/// nobody asks for. Summing what the rows report of themselves would not
/// notice: the rows that survived agree with each other whatever is missing.
pub fn check_coverage(index: &IndexRef, instance: &Vec<&IndexStatus>, routes: &Vec<Route>) -> (r:
    Result<(), RouteError>)
    ensures
        r == coverage(*index, unborrowed(instance@), claimed(views(routes@))),
{
    let ghost rows = unborrowed(instance@);
    let ghost parts = claimed(views(routes@));
    let all: Vec<u64> = all_partitions(routes);
    let partitions: Vec<u64> = sort_numbers(all);
    let ghost sorted = partitions@;
    proof {
        lemma_same_numbers(sorted, parts);
    }
    let mut i: usize = 1;
    while i < partitions.len()
        invariant
            1 <= i,
            partitions@ == sorted,
            parts == claimed(views(routes@)),
            sorted.to_multiset() == parts.to_multiset(),
            is_sorted(sorted),
            forall|a: int, b: int| 0 <= a < b < i && b < sorted.len() ==> sorted[a] < sorted[b],
        decreases partitions.len() - i,
    {
        if partitions[i - 1] == partitions[i] {
            let p: u64 = partitions[i];
            proof {
                lemma_adjacent_is_repeat(sorted, i - 1);
                assert(parts.to_multiset().count(p) >= 2);
                assert forall|q: u64| #[trigger] parts.to_multiset().count(q) >= 2 implies p
                    <= q by {
                    lemma_repeat_is_adjacent(sorted, q);
                    let k = choose|k: int|
                        0 <= k && k + 1 < sorted.len() && #[trigger] sorted[k] == q && sorted[k + 1]
                            == q;
                    if k + 1 < i {
                        assert(sorted[k] < sorted[k + 1]);
                    }
                }
                assert(is_first_repeat(parts, p));
                let c = choose|c: u64| is_first_repeat(parts, c);
                assert(is_first_repeat(parts, c));
                assert(c == p);
            }
            return Err(
                RouteError::PartitionClaimedTwice { index: index.clone(), partition: p },
            );
        }
        proof {
            assert forall|a: int, b: int| 0 <= a < b < i + 1 && b < sorted.len() implies sorted[a]
                < sorted[b] by {
                if b == i {
                    if a < i - 1 {
                        assert(sorted[a] < sorted[i - 1]);
                    }
                    assert(sorted[i - 1] <= sorted[i as int]);
                }
            }
        }
        i += 1;
    }
    proof {
        assert(strictly_ascending(sorted));
        assert(!has_repeat(parts)) by {
            if has_repeat(parts) {
                let p = choose|p: u64| #[trigger] parts.to_multiset().count(p) >= 2;
                lemma_repeat_is_adjacent(sorted, p);
                let k = choose|k: int|
                    0 <= k && k + 1 < sorted.len() && #[trigger] sorted[k] == p && sorted[k + 1]
                        == p;
                assert(sorted[k] < sorted[k + 1]);
            }
        }
    }
    let held: usize = partitions.len();
    if !some_partitioned(instance) {
        let alone: bool = held == 1 && partitions[0] == 0;
        proof {
            if alone {
                assert(parts.contains(sorted[0]));
                assert(parts =~= seq![0u64]);
            } else if parts == seq![0u64] {
                assert(parts.contains(parts[0]));
                assert(sorted.contains(0u64));
            }
        }
        return if alone {
            Ok(())
        } else {
            Err(RouteError::PartitionsMissing { index: index.clone(), held, want: 1 })
        };
    }
    let want: usize = match declared_by(instance) {
        Some(n) => n as usize,
        None => {
            let max: u64 = if held == 0 {
                0
            } else {
                partitions[held - 1]
            };
            proof {
                lemma_largest(sorted);
                if held > 0 {
                    let k = choose|k: int| 0 <= k < sorted.len() && sorted[k] == largest(sorted);
                    assert(sorted[k] <= sorted[held - 1]);
                    assert(sorted[held - 1] <= largest(sorted));
                }
            }
            max as usize
        },
    };
    let mut whole: bool = held == want;
    let mut j: usize = 0;
    while j < held
        invariant
            held == partitions.len(),
            partitions@ == sorted,
            j <= held,
            whole ==> held == want && forall|a: int| 0 <= a < j ==> sorted[a] == a + 1,
            !whole ==> !counts_up(sorted, want as nat),
        decreases held - j,
    {
        if partitions[j] != j as u64 + 1 {
            assert(sorted[j as int] != j + 1);
            whole = false;
        }
        j += 1;
    }
    proof {
        lemma_one_each(sorted, want as nat);
        assert(one_each_up_to(sorted, want as nat) == one_each_up_to(parts, want as nat));
    }
    if whole {
        Ok(())
    } else {
        Err(RouteError::PartitionsMissing { index: index.clone(), held, want })
    }
}

/// The rows that a list of borrowed rows stands for.
pub open spec fn unborrowed(rows: Seq<&IndexStatus>) -> Seq<IndexStatus> {
    rows.map_values(|s: &IndexStatus| *s)
}

pub open spec fn views(routes: Seq<Route>) -> Seq<RouteView> {
    routes.map_values(|r: Route| r@)
}

fn all_partitions(routes: &Vec<Route>) -> (r: Vec<u64>)
    ensures
        r@ == claimed(views(routes@)),
{
    let mut out: Vec<u64> = Vec::new();
    let mut i: usize = 0;
    assert(views(routes@).take(0) =~= Seq::<RouteView>::empty());
    while i < routes.len()
        invariant
            i <= routes.len(),
            out@ == claimed(views(routes@).take(i as int)),
        decreases routes.len() - i,
    {
        let ghost before = out@;
        let mut j: usize = 0;
        assert(before + routes@[i as int].partitions@.take(0) =~= before);
        while j < routes[i].partitions.len()
            invariant
                i < routes.len(),
                j <= routes@[i as int].partitions@.len(),
                out@ == before + routes@[i as int].partitions@.take(j as int),
            decreases routes@[i as int].partitions@.len() - j,
        {
            out.push(routes[i].partitions[j]);
            assert(before + routes@[i as int].partitions@.take(j + 1) =~= (before
                + routes@[i as int].partitions@.take(j as int)).push(
                routes@[i as int].partitions@[j as int],
            ));
            j += 1;
        }
        proof {
            let parts = routes@[i as int].partitions@;
            assert(parts.take(parts.len() as int) =~= parts);
            assert(views(routes@).take(i + 1).drop_last() =~= views(routes@).take(i as int));
            assert(views(routes@).take(i + 1).last() == routes@[i as int]@);
        }
        i += 1;
    }
    assert(views(routes@).take(views(routes@).len() as int) =~= views(routes@));
    out
}

fn some_partitioned(instance: &Vec<&IndexStatus>) -> (r: bool)
    ensures
        r == any_partitioned(unborrowed(instance@)),
{
    let ghost rows = unborrowed(instance@);
    let mut i: usize = 0;
    while i < instance.len()
        invariant
            i <= instance.len(),
            rows == unborrowed(instance@),
            forall|j: int| 0 <= j < i ==> !(#[trigger] rows[j]).partitioned,
        decreases instance.len() - i,
    {
        if instance[i].partitioned {
            assert(rows[i as int].partitioned);
            return true;
        }
        i += 1;
    }
    false
}

fn declared_by(instance: &Vec<&IndexStatus>) -> (r: Option<u32>)
    ensures
        r == first_declared(unborrowed(instance@)),
{
    let ghost rows = unborrowed(instance@);
    let mut i: usize = 0;
    let mut found: Option<u32> = None;
    assert(rows.take(0) =~= Seq::<IndexStatus>::empty());
    while i < instance.len()
        invariant
            i <= instance.len(),
            rows == unborrowed(instance@),
            found == first_declared(rows.take(i as int)),
        decreases instance.len() - i,
    {
        proof {
            assert(rows.take(i + 1).drop_last() =~= rows.take(i as int));
            assert(rows.take(i + 1).last() == *instance@[i as int]);
        }
        if found.is_none() {
            found = instance[i].declared_partitions();
        }
        i += 1;
    }
    assert(rows.take(rows.len() as int) =~= rows);
    found
}

/// The routes with `r` put behind those that do not stand behind it.
pub open spec fn with_route(routes: Seq<RouteView>, r: RouteView) -> Seq<RouteView>
    decreases routes.len(),
{
    if routes.len() > 0 && list_less(r.partitions, routes.last().partitions) {
        with_route(routes.drop_last(), r).push(routes.last())
    } else {
        routes.push(r)
    }
}

/// The routes in the order of their partitions, equal ones in the order they
/// came in.
pub open spec fn in_partition_order(routes: Seq<RouteView>) -> Seq<RouteView>
    decreases routes.len(),
{
    if routes.len() == 0 {
        Seq::empty()
    } else {
        with_route(in_partition_order(routes.drop_last()), routes.last())
    }
}

proof fn lemma_with_route(routes: Seq<RouteView>, r: RouteView, p: int)
    requires
        0 <= p <= routes.len(),
        forall|i: int|
            p <= i < routes.len() ==> list_less(r.partitions, (#[trigger] routes[i]).partitions),
        p > 0 ==> !list_less(r.partitions, routes[p - 1].partitions),
    ensures
        with_route(routes, r) == routes.insert(p, r),
    decreases routes.len(),
{
    if p < routes.len() {
        lemma_with_route(routes.drop_last(), r, p);
        assert(routes.insert(p, r) =~= routes.drop_last().insert(p, r).push(routes.last()));
    } else {
        assert(routes.insert(p, r) =~= routes.push(r));
    }
}

fn order_by_partitions(routes: Vec<Route>) -> (r: Vec<Route>)
    ensures
        views(r@) == in_partition_order(views(routes@)),
{
    let ghost all = routes@;
    let mut out: Vec<Route> = Vec::new();
    assert(views(out@) =~= Seq::<RouteView>::empty());
    assert(views(all).take(0) =~= Seq::<RouteView>::empty());
    for route in it: routes
        invariant
            it.seq() == all,
            views(out@) == in_partition_order(views(all).take(it.index() as int)),
    {
        let ghost i = it.index() as int;
        let ghost before = out@;
        let mut p: usize = out.len();
        while p > 0 && less_list(&route.partitions, &out[p - 1].partitions)
            invariant
                p <= out.len(),
                out@ == before,
                forall|j: int|
                    p <= j < out@.len() ==> list_less(
                        route.partitions@,
                        (#[trigger] out@[j]).partitions@,
                    ),
            decreases p,
        {
            p -= 1;
        }
        let ghost put = route;
        out.insert(p, route);
        proof {
            assert(views(all).take(i + 1).drop_last() =~= views(all).take(i));
            assert(views(all).take(i + 1).last() == put@);
            assert forall|j: int| p <= j < views(before).len() implies list_less(
                put@.partitions,
                (#[trigger] views(before)[j]).partitions,
            ) by {
                assert(list_less(put.partitions@, before[j].partitions@));
            }
            lemma_with_route(views(before), put@, p as int);
            assert(views(out@) =~= views(before).insert(p as int, put@));
        }
    }
    assert(views(all).take(views(all).len() as int) =~= views(all));
    out
}

proof fn lemma_with_route_sorted(routes: Seq<RouteView>, r: RouteView)
    requires
        forall|i: int, j: int|
            0 <= i < j < routes.len() ==> !list_less(
                (#[trigger] routes[j]).partitions,
                (#[trigger] routes[i]).partitions,
            ),
    ensures
        forall|i: int, j: int|
            0 <= i < j < with_route(routes, r).len() ==> !list_less(
                (#[trigger] with_route(routes, r)[j]).partitions,
                (#[trigger] with_route(routes, r)[i]).partitions,
            ),
        with_route(routes, r).to_multiset() == routes.to_multiset().insert(r),
        with_route(routes, r).len() == routes.len() + 1,
    decreases routes.len(),
{
    routes.to_multiset_ensures();
    if routes.len() > 0 && list_less(r.partitions, routes.last().partitions) {
        let front = routes.drop_last();
        let last = routes.last();
        lemma_with_route_sorted(front, r);
        let put = with_route(front, r);
        put.to_multiset_ensures();
        front.to_multiset_ensures();
        assert(front.push(last) =~= routes);
        assert(put.push(last).to_multiset() =~= routes.to_multiset().insert(r));
        assert forall|i: int| 0 <= i < put.len() implies !list_less(
            last.partitions,
            (#[trigger] put[i]).partitions,
        ) by {
            assert(put.contains(put[i]));
            assert(put.to_multiset().count(put[i]) > 0);
            if put[i] == r {
                list_less_is_total(r.partitions, last.partitions);
            } else {
                assert(front.to_multiset().count(put[i]) > 0);
                assert(front.contains(put[i]));
                let k = choose|k: int| 0 <= k < front.len() && front[k] == put[i];
                assert(!list_less(routes[routes.len() - 1].partitions, routes[k].partitions));
            }
        }
    } else {
        if routes.len() > 0 {
            let last = routes.last();
            assert forall|i: int| 0 <= i < routes.len() implies !list_less(
                r.partitions,
                (#[trigger] routes[i]).partitions,
            ) by {
                if list_less(r.partitions, routes[i].partitions) && i < routes.len() - 1 {
                    assert(!list_less(routes[routes.len() - 1].partitions, routes[i].partitions));
                    list_less_is_total(routes[i].partitions, last.partitions);
                    list_less_is_total(r.partitions, last.partitions);
                    if routes[i].partitions != last.partitions {
                        list_less_is_transitive(
                            r.partitions,
                            routes[i].partitions,
                            last.partitions,
                        );
                    }
                }
            }
        }
    }
}

/// Ordering routes loses none and adds none, and leaves no route in front of
/// one that stands before it.
pub proof fn partition_order_is_a_reordering(routes: Seq<RouteView>)
    ensures
        in_partition_order(routes).to_multiset() == routes.to_multiset(),
        in_partition_order(routes).len() == routes.len(),
        forall|i: int, j: int|
            0 <= i < j < routes.len() ==> !list_less(
                (#[trigger] in_partition_order(routes)[j]).partitions,
                (#[trigger] in_partition_order(routes)[i]).partitions,
            ),
    decreases routes.len(),
{
    if routes.len() > 0 {
        let front = routes.drop_last();
        partition_order_is_a_reordering(front);
        lemma_with_route_sorted(in_partition_order(front), routes.last());
        front.to_multiset_ensures();
        assert(front.push(routes.last()) =~= routes);
    } else {
        assert(in_partition_order(routes) =~= routes);
    }
}

/// A snapshot of the cluster's indexes, and the node map they are joined
/// against.
pub struct Topology {
    pub indexes: Vec<IndexStatus>,
    pub nodes: NodeMap,
    /// Whether the index list can be trusted. False until the first listing,
    /// and false again when the cluster config moved the nodes under it.
    pub current: bool,
}

impl Topology {
    /// Every row of a named index that could serve a scan right now.
    pub fn ready_instances(&self, index: &IndexRef) -> (r: Vec<&IndexStatus>)
        ensures
            unborrowed(r@) == ready_rows(self.indexes@, *index),
    {
        let ghost keep = |s: IndexStatus| s.ready() && is_row_of(s, *index);
        let mut out: Vec<&IndexStatus> = Vec::new();
        let mut i: usize = 0;
        proof {
            reveal(Seq::filter);
            assert(self.indexes@.take(0) =~= Seq::<IndexStatus>::empty());
            assert(unborrowed(out@) =~= Seq::<IndexStatus>::empty());
        }
        while i < self.indexes.len()
            invariant
                i <= self.indexes.len(),
                keep == (|s: IndexStatus| s.ready() && is_row_of(s, *index)),
                unborrowed(out@) == self.indexes@.take(i as int).filter(keep),
            decreases self.indexes.len() - i,
        {
            let row: &IndexStatus = &self.indexes[i];
            proof {
                reveal(Seq::filter);
                assert(self.indexes@.take(i + 1).drop_last() =~= self.indexes@.take(i as int));
                assert(self.indexes@.take(i + 1).last() == *row);
            }
            let ghost before = out@;
            if row.is_ready() && same_index(row, index) {
                out.push(row);
                assert(unborrowed(out@) =~= unborrowed(before).push(*row));
            }
            i += 1;
        }
        assert(self.indexes@.take(self.indexes@.len() as int) =~= self.indexes@);
        out
    }

    fn lists(&self, index: &IndexRef) -> (r: bool)
        ensures
            r == is_listed(self.indexes@, *index),
    {
        let mut i: usize = 0;
        while i < self.indexes.len()
            invariant
                i <= self.indexes.len(),
                forall|j: int| 0 <= j < i ==> !is_row_of(#[trigger] self.indexes@[j], *index),
            decreases self.indexes.len() - i,
        {
            if same_index(&self.indexes[i], index) {
                assert(is_row_of(self.indexes@[i as int], *index));
                return true;
            }
            i += 1;
        }
        false
    }
}

/// Whether the listing has a row of this index, ready or not.
pub open spec fn is_listed(indexes: Seq<IndexStatus>, index: IndexRef) -> bool {
    exists|i: int| 0 <= i < indexes.len() && is_row_of(#[trigger] indexes[i], index)
}

fn same_index(row: &IndexStatus, index: &IndexRef) -> (r: bool)
    ensures
        r == is_row_of(*row, *index),
{
    let (bucket, scope, collection): (&str, &str, &str) = row.keyspace();
    same_text(row.index_name.as_str(), index.name.as_str()) && same_text(
        bucket,
        index.bucket.as_str(),
    ) && same_text(scope, index.scope.as_str()) && same_text(
        collection,
        index.collection.as_str(),
    )
}

/// Every route that a scan of the index needs, or why there is none. `cursor`
/// is the turn that the replicas take.
pub open spec fn routing(
    indexes: Seq<IndexStatus>,
    nodes: Map<Seq<char>, Dial>,
    current: bool,
    cursor: usize,
    index: IndexRef,
) -> Result<Seq<RouteView>, RouteError> {
    let ready = ready_rows(indexes, index);
    if ready.len() == 0 {
        if !current {
            Err(RouteError::NoTopology)
        } else if is_listed(indexes, index) {
            Err(RouteError::IndexNotReady(index))
        } else {
            Err(RouteError::IndexNotFound(index))
        }
    } else {
        let rows = chosen_rows(ready, cursor);
        let hosts = placements(rows);
        match first_unknown(hosts, nodes) {
            Some(host) => Err(RouteError::UnknownNode(host)),
            None => {
                let routes = routes_to(hosts, nodes);
                if routes.len() == 0 {
                    Err(RouteError::IndexNotReady(index))
                } else {
                    match coverage(index, rows, claimed(routes)) {
                        Ok(_) => Ok(in_partition_order(routes)),
                        Err(e) => Err(e),
                    }
                }
            },
        }
    }
}

/// The copy of the index whose turn it is.
pub open spec fn chosen_rows(ready: Seq<IndexStatus>, cursor: usize) -> Seq<IndexStatus> {
    let ids = instance_ids(ready);
    rows_of_instance(ready, ids[cursor as int % ids.len() as int])
}

/// The index topology, and the routing decisions that can be taken from it.
/// The snapshot is pushed in from outside.
pub struct IndexRouter {
    topology: Topology,
    /// Bumped by every new listing.
    generation: usize,
    /// Whose turn it is among the replicas.
    next_replica: usize,
}

impl IndexRouter {
    pub closed spec fn indexes(&self) -> Seq<IndexStatus> {
        self.topology.indexes@
    }

    pub closed spec fn nodes(&self) -> Map<Seq<char>, Dial> {
        self.topology.nodes@
    }

    pub closed spec fn is_current(&self) -> bool {
        self.topology.current
    }

    pub closed spec fn spec_generation(&self) -> usize {
        self.generation
    }

    pub closed spec fn cursor(&self) -> usize {
        self.next_replica
    }

    /// What a scan of the index is routed to now.
    pub open spec fn spec_routes(&self, index: IndexRef) -> Result<Seq<RouteView>, RouteError> {
        routing(self.indexes(), self.nodes(), self.is_current(), self.cursor(), index)
    }

    /// What a router is after it was asked once for the routes of an index: the
    /// same but for the turn that the replicas take. An index of which no row
    /// is ready takes none.
    pub open spec fn routed_once(&self, before: &IndexRouter, index: IndexRef) -> bool {
        &&& self.indexes() == before.indexes()
        &&& self.nodes() == before.nodes()
        &&& self.is_current() == before.is_current()
        &&& self.spec_generation() == before.spec_generation()
        &&& self.cursor() == (if ready_rows(before.indexes(), index).len() == 0 {
            before.cursor()
        } else if before.cursor() == usize::MAX {
            0
        } else {
            (before.cursor() + 1) as usize
        })
    }

    pub fn new(nodes: NodeMap) -> (r: IndexRouter)
        ensures
            r.indexes().len() == 0,
            r.nodes() == nodes@,
            !r.is_current(),
            r.spec_generation() == 0,
            r.cursor() == 0,
    {
        IndexRouter {
            topology: Topology { indexes: Vec::new(), nodes, current: false },
            generation: 0,
            next_replica: 0,
        }
    }

    /// Installs a fresh listing against the node map it was read beside.
    pub fn set_topology(&mut self, indexes: Vec<IndexStatus>, nodes: NodeMap)
        ensures
            final(self).indexes() == indexes@,
            final(self).nodes() == nodes@,
            final(self).is_current(),
            final(self).spec_generation() == (if old(self).spec_generation() == usize::MAX {
                0
            } else {
                (old(self).spec_generation() + 1) as usize
            }),
            final(self).cursor() == old(self).cursor(),
    {
        self.topology = Topology { indexes, nodes, current: true };
        self.generation = self.generation.wrapping_add(1);
    }

    /// How many times the index list has been replaced. Only useful compared
    /// against itself.
    pub fn generation(&self) -> (r: usize)
        ensures
            r == self.spec_generation(),
    {
        self.generation
    }

    /// Takes a new node map from a cluster config. One that differs from the
    /// last makes the index list stale: the nodes changing is what moves
    /// partitions. One that says the same changes nothing.
    pub fn set_nodes(&mut self, nodes: NodeMap)
        ensures
            nodes@ == old(self).nodes() ==> *final(self) == *old(self),
            nodes@ != old(self).nodes() ==> {
                &&& final(self).indexes() == old(self).indexes()
                &&& final(self).nodes() == nodes@
                &&& !final(self).is_current()
            },
            final(self).spec_generation() == old(self).spec_generation(),
            final(self).cursor() == old(self).cursor(),
    {
        if self.topology.nodes == nodes {
            return;
        }
        self.topology.nodes = nodes;
        self.topology.current = false;
    }

    /// The node map in use.
    pub fn node_map(&self) -> (r: &NodeMap)
        ensures
            r@ == self.nodes(),
    {
        &self.topology.nodes
    }

    /// Whether the next scan needs a fresh listing first.
    pub fn needs_refresh(&self) -> (r: bool)
        ensures
            r == !self.is_current(),
    {
        !self.topology.current
    }

    /// Every route one scan of this index needs: one per host holding a piece
    /// of it, all of one replica, in partition order. The replicas take turns.
    pub fn routes(&mut self, index: &IndexRef) -> (r: Result<Vec<Route>, RouteError>)
        ensures
            match old(self).spec_routes(*index) {
                Ok(routes) => r is Ok && views(r->Ok_0@) == routes,
                Err(e) => r == Err::<Vec<Route>, RouteError>(e),
            },
            final(self).routed_once(old(self), *index),
    {
        let turn: usize = self.next_replica;
        let (r, took_turn): (Result<Vec<Route>, RouteError>, bool) = self.topology.routes_at(
            index,
            turn,
        );
        if took_turn {
            self.next_replica = turn.wrapping_add(1);
        }
        r
    }
}

impl Topology {
    fn routes_at(&self, index: &IndexRef, cursor: usize) -> (r: (
        Result<Vec<Route>, RouteError>,
        bool,
    ))
        ensures
            match routing(self.indexes@, self.nodes@, self.current, cursor, *index) {
                Ok(routes) => r.0 is Ok && views(r.0->Ok_0@) == routes,
                Err(e) => r.0 == Err::<Vec<Route>, RouteError>(e),
            },
            r.1 == (ready_rows(self.indexes@, *index).len() != 0),
    {
        let ready: Vec<&IndexStatus> = self.ready_instances(index);
        assert(unborrowed(ready@).len() == ready@.len());
        if ready.len() == 0 {
            if !self.current {
                return (Err(RouteError::NoTopology), false);
            }
            return if self.lists(index) {
                (Err(RouteError::IndexNotReady(index.clone())), false)
            } else {
                (Err(RouteError::IndexNotFound(index.clone())), false)
            };
        }
        let ids: Vec<u64> = ids_of(&ready);
        proof {
            lemma_some_instance(unborrowed(ready@));
        }
        let choice: usize = cursor % ids.len();
        let instance: Vec<&IndexStatus> = pick_instance(&ready, ids[choice]);
        let ghost rows = chosen_rows(unborrowed(ready@), cursor);
        let routes: Vec<Route> = match self.routes_of(&instance) {
            Ok(routes) => routes,
            Err(e) => {
                return (Err(e), true);
            },
        };
        assert(views(routes@).len() == routes@.len());
        if routes.len() == 0 {
            return (Err(RouteError::IndexNotReady(index.clone())), true);
        }
        match check_coverage(index, &instance, &routes) {
            Ok(_) => (Ok(order_by_partitions(routes)), true),
            Err(e) => (Err(e), true),
        }
    }

    fn routes_of(&self, instance: &Vec<&IndexStatus>) -> (r: Result<Vec<Route>, RouteError>)
        ensures
            match first_unknown(placements(unborrowed(instance@)), self.nodes@) {
                Some(host) => r == Err::<Vec<Route>, RouteError>(RouteError::UnknownNode(host)),
                None => r is Ok && views(r->Ok_0@) == routes_to(
                    placements(unborrowed(instance@)),
                    self.nodes@,
                ),
            },
    {
        let ghost rows = unborrowed(instance@);
        let ghost nodes = self.nodes@;
        let mut out: Vec<Route> = Vec::new();
        let mut i: usize = 0;
        proof {
            assert(rows.take(0) =~= Seq::<IndexStatus>::empty());
            assert(views(out@) =~= routes_to(placements(rows.take(0)), nodes));
        }
        while i < instance.len()
            invariant
                i <= instance.len(),
                rows == unborrowed(instance@),
                nodes == self.nodes@,
                views(out@) == routes_to(placements(rows.take(i as int)), nodes),
                all_known(placements(rows.take(i as int)), nodes),
            decreases instance.len() - i,
        {
            let row: &IndexStatus = instance[i];
            let ghost before = placements(rows.take(i as int));
            let ghost here = row_placements(*row);
            proof {
                assert(rows.take(i + 1).drop_last() =~= rows.take(i as int));
                assert(rows.take(i + 1).last() == *row);
                assert(before + here.take(0) =~= before);
            }
            let hosts: &Vec<(String, Vec<u64>)> = row.partition_map.entries();
            let mut j: usize = 0;
            while j < hosts.len()
                invariant
                    i < instance.len(),
                    rows == unborrowed(instance@),
                    *row == rows[i as int],
                    nodes == self.nodes@,
                    j <= hosts.len(),
                    hosts@ == row.partition_map.listing(),
                    here == row_placements(*row),
                    before == placements(rows.take(i as int)),
                    placements(rows.take(i + 1)) == before + here,
                    views(out@) == routes_to(before + here.take(j as int), nodes),
                    all_known(before + here.take(j as int), nodes),
                decreases hosts.len() - j,
            {
                let ghost so_far = before + here.take(j as int);
                let mgmt_host: &String = &hosts[j].0;
                let scan_address: Address = match self.nodes.scan_address(mgmt_host.as_str()) {
                    Some(a) => a.clone(),
                    None => {
                        proof {
                            lemma_prefix(rows, i + 1);
                            let ps = placements(rows);
                            let at = so_far.len() as int;
                            assert(at == before.len() + j);
                            assert((before + here)[at] == here[j as int]);
                            assert(placements(rows.take(i + 1))[at] == here[j as int]);
                            assert(ps[at] == here[j as int]);
                            assert forall|k: int| 0 <= k < at implies nodes.contains_key(
                                (#[trigger] ps[k]).host@,
                            ) by {
                                assert(nodes.contains_key(so_far[k].host@));
                                assert(so_far[k] == placements(rows.take(i + 1))[k]);
                            }
                            lemma_first_unknown(ps, nodes, at);
                        }
                        return Err(RouteError::UnknownNode(mgmt_host.clone()));
                    },
                };
                let partitions: Vec<u64> = hosts[j].1.clone();
                assert(partitions@ =~= hosts@[j as int].1@);
                let ghost was = out@;
                out.push(
                    Route {
                        defn_id: row.defn_id,
                        inst_id: row.inst_id,
                        replica_id: row.replica_id,
                        scan_address,
                        partitioned: row.partitioned,
                        partitions,
                    },
                );
                proof {
                    let next = before + here.take(j + 1);
                    assert(next =~= so_far.push(here[j as int]));
                    assert(out@.last()@ == route_to(here[j as int], nodes));
                    assert(views(out@) =~= views(was).push(out@.last()@));
                    assert(routes_to(next, nodes) =~= routes_to(so_far, nodes).push(
                        route_to(here[j as int], nodes),
                    ));
                }
                j += 1;
            }
            assert(here.take(here.len() as int) =~= here);
            i += 1;
        }
        proof {
            assert(rows.take(rows.len() as int) =~= rows);
            lemma_all_known(placements(rows), nodes);
        }
        Ok(out)
    }
}

spec fn all_known(ps: Seq<Placement>, nodes: Map<Seq<char>, Dial>) -> bool {
    forall|k: int| 0 <= k < ps.len() ==> nodes.contains_key((#[trigger] ps[k]).host@)
}

proof fn lemma_all_known(ps: Seq<Placement>, nodes: Map<Seq<char>, Dial>)
    requires
        all_known(ps, nodes),
    ensures
        first_unknown(ps, nodes) is None,
    decreases ps.len(),
{
    if ps.len() > 0 {
        assert(nodes.contains_key(ps[0].host@));
        lemma_all_known(ps.skip(1), nodes);
    }
}

proof fn lemma_first_unknown(ps: Seq<Placement>, nodes: Map<Seq<char>, Dial>, at: int)
    requires
        0 <= at < ps.len(),
        forall|k: int| 0 <= k < at ==> nodes.contains_key((#[trigger] ps[k]).host@),
        !nodes.contains_key(ps[at].host@),
    ensures
        first_unknown(ps, nodes) == Some(ps[at].host),
    decreases ps.len(),
{
    if at > 0 {
        assert(nodes.contains_key(ps[0].host@));
        lemma_first_unknown(ps.skip(1), nodes, at - 1);
    }
}

/// The hosts of the first rows come first.
proof fn lemma_prefix(rows: Seq<IndexStatus>, n: int)
    requires
        0 <= n <= rows.len(),
    ensures
        placements(rows.take(n)).len() <= placements(rows).len(),
        forall|k: int|
            0 <= k < placements(rows.take(n)).len() ==> placements(rows)[k] == #[trigger] placements(
                rows.take(n),
            )[k],
    decreases rows.len() - n,
{
    if n < rows.len() {
        lemma_prefix(rows, n + 1);
        assert(rows.take(n + 1).drop_last() =~= rows.take(n));
        assert forall|k: int| 0 <= k < placements(rows.take(n)).len() implies placements(rows)[k]
            == #[trigger] placements(rows.take(n))[k] by {
            assert(placements(rows.take(n + 1))[k] == placements(rows.take(n))[k]);
        }
    } else {
        assert(rows.take(n) =~= rows);
    }
}

proof fn lemma_some_instance(rows: Seq<IndexStatus>)
    ensures
        rows.len() > 0 ==> instance_ids(rows).len() > 0,
    decreases rows.len(),
{
}

fn ids_of(rows: &Vec<&IndexStatus>) -> (r: Vec<u64>)
    ensures
        r@ == instance_ids(unborrowed(rows@)),
{
    let ghost all = unborrowed(rows@);
    let mut ids: Vec<u64> = Vec::new();
    let mut i: usize = 0;
    assert(all.take(0) =~= Seq::<IndexStatus>::empty());
    while i < rows.len()
        invariant
            i <= rows.len(),
            all == unborrowed(rows@),
            ids@ == instance_ids(all.take(i as int)),
        decreases rows.len() - i,
    {
        let id: u64 = rows[i].inst_id;
        proof {
            assert(all.take(i + 1).drop_last() =~= all.take(i as int));
            assert(all.take(i + 1).last() == *rows@[i as int]);
        }
        let mut known: bool = false;
        let mut j: usize = 0;
        while j < ids.len()
            invariant
                j <= ids.len(),
                known ==> ids@.contains(id),
                !known ==> forall|k: int| 0 <= k < j ==> ids@[k] != id,
            decreases ids.len() - j,
        {
            if ids[j] == id {
                assert(ids@[j as int] == id);
                known = true;
            }
            j += 1;
        }
        if !known {
            ids.push(id);
        }
        i += 1;
    }
    assert(all.take(all.len() as int) =~= all);
    ids
}

fn pick_instance<'a>(rows: &Vec<&'a IndexStatus>, inst_id: u64) -> (r: Vec<&'a IndexStatus>)
    ensures
        unborrowed(r@) == rows_of_instance(unborrowed(rows@), inst_id),
{
    let ghost all = unborrowed(rows@);
    let ghost keep = |s: IndexStatus| s.inst_id == inst_id;
    let mut out: Vec<&'a IndexStatus> = Vec::new();
    let mut i: usize = 0;
    proof {
        reveal(Seq::filter);
        assert(all.take(0) =~= Seq::<IndexStatus>::empty());
        assert(unborrowed(out@) =~= Seq::<IndexStatus>::empty());
    }
    while i < rows.len()
        invariant
            i <= rows.len(),
            all == unborrowed(rows@),
            keep == (|s: IndexStatus| s.inst_id == inst_id),
            unborrowed(out@) == all.take(i as int).filter(keep),
        decreases rows.len() - i,
    {
        let row: &'a IndexStatus = rows[i];
        proof {
            reveal(Seq::filter);
            assert(all.take(i + 1).drop_last() =~= all.take(i as int));
            assert(all.take(i + 1).last() == *row);
        }
        let ghost before = out@;
        if row.inst_id == inst_id {
            out.push(row);
            assert(unborrowed(out@) =~= unborrowed(before).push(*row));
        }
        i += 1;
    }
    assert(all.take(all.len() as int) =~= all);
    out
}

/// Whether a failed scan is worth one topology refresh and one more attempt:
/// a routing failure always is, and of what an indexer said only that the
/// partition moved.
pub open spec fn is_worth_refreshing(e: error::ErrorKind) -> bool {
    match e {
        error::ErrorKind::IndexRouting(_) => true,
        error::ErrorKind::Indexer(e) => match e.spec_kind() {
            indexerx::error::ErrorKind::Server(s) => s.condition()
                == ServerCondition::NotMyPartition,
            _ => false,
        },
        _ => false,
    }
}

/// Whether a failed scan is worth one topology refresh and one more attempt.
pub fn worth_refreshing(e: &error::Error) -> (r: bool)
    ensures
        r == is_worth_refreshing(e.spec_kind()),
{
    match e.kind() {
        error::ErrorKind::IndexRouting(e) => e.worth_refreshing(),
        error::ErrorKind::Indexer(e) => match e.kind() {
            indexerx::error::ErrorKind::Server(s) => s.is_retryable_after_refresh(),
            _ => false,
        },
        _ => false,
    }
}

proof fn lemma_claimed_with_route(routes: Seq<RouteView>, r: RouteView)
    ensures
        claimed(with_route(routes, r)).to_multiset() == claimed(routes).to_multiset().add(
            r.partitions.to_multiset(),
        ),
    decreases routes.len(),
{
    if routes.len() > 0 && list_less(r.partitions, routes.last().partitions) {
        let front = routes.drop_last();
        let put = with_route(front, r);
        lemma_claimed_with_route(front, r);
        assert(put.push(routes.last()).drop_last() =~= put);
        vstd::seq_lib::lemma_multiset_commutative(claimed(put), routes.last().partitions);
        vstd::seq_lib::lemma_multiset_commutative(claimed(front), routes.last().partitions);
        assert(claimed(with_route(routes, r)).to_multiset() =~= claimed(
            routes,
        ).to_multiset().add(r.partitions.to_multiset()));
    } else {
        assert(routes.push(r).drop_last() =~= routes);
        vstd::seq_lib::lemma_multiset_commutative(claimed(routes), r.partitions);
    }
}

proof fn lemma_claimed_in_order(routes: Seq<RouteView>)
    ensures
        claimed(in_partition_order(routes)).to_multiset() == claimed(routes).to_multiset(),
    decreases routes.len(),
{
    if routes.len() > 0 {
        let front = routes.drop_last();
        lemma_claimed_in_order(front);
        lemma_claimed_with_route(in_partition_order(front), routes.last());
        vstd::seq_lib::lemma_multiset_commutative(claimed(front), routes.last().partitions);
    }
}

/// A scan that is routed reads the whole index, each entry once: the routes
/// together claim partition 0 alone where the index is not partitioned, else
/// each partition from 1 to the number there should be, once, and no others.
pub proof fn a_routed_scan_reads_each_partition_once(
    indexes: Seq<IndexStatus>,
    nodes: Map<Seq<char>, Dial>,
    current: bool,
    cursor: usize,
    index: IndexRef,
)
    requires
        routing(indexes, nodes, current, cursor, index) is Ok,
    ensures
        ({
            let routes = routing(indexes, nodes, current, cursor, index)->Ok_0;
            let rows = chosen_rows(ready_rows(indexes, index), cursor);
            &&& routes.len() > 0
            &&& any_partitioned(rows) ==> one_each_up_to(
                claimed(routes),
                wanted(rows, claimed(routes)) as nat,
            )
            &&& !any_partitioned(rows) ==> claimed(routes) == seq![0u64]
        }),
{
    let rows = chosen_rows(ready_rows(indexes, index), cursor);
    let unordered = routes_to(placements(rows), nodes);
    let routes = in_partition_order(unordered);
    partition_order_is_a_reordering(unordered);
    lemma_claimed_in_order(unordered);
    lemma_same_numbers(claimed(routes), claimed(unordered));
    if any_partitioned(rows) {
        let want = wanted(rows, claimed(routes)) as nat;
        assert forall|p: u64| #[trigger] claimed(routes).to_multiset().count(p) == (if 1 <= p
            <= want {
            1nat
        } else {
            0nat
        }) by {
            assert(claimed(unordered).to_multiset().count(p) == claimed(
                routes,
            ).to_multiset().count(p));
        }
    } else {
        assert(claimed(unordered).contains(claimed(unordered)[0]));
        assert(claimed(routes).contains(0u64));
        assert(claimed(routes) =~= seq![0u64]);
    }
}

proof fn lemma_same_instance(rows: Seq<IndexStatus>, inst_id: u64)
    requires
        forall|i: int| 0 <= i < rows.len() ==> (#[trigger] rows[i]).inst_id == inst_id,
    ensures
        forall|k: int|
            0 <= k < placements(rows).len() ==> (#[trigger] placements(rows)[k]).row.inst_id
                == inst_id,
    decreases rows.len(),
{
    if rows.len() > 0 {
        let front = rows.drop_last();
        assert forall|i: int| 0 <= i < front.len() implies (#[trigger] front[i]).inst_id
            == inst_id by {
            assert(rows[i].inst_id == inst_id);
        }
        lemma_same_instance(front, inst_id);
        assert(rows[rows.len() - 1].inst_id == inst_id);
        assert forall|k: int| 0 <= k < placements(rows).len() implies (
        #[trigger] placements(rows)[k]).row.inst_id == inst_id by {
            if k < placements(front).len() {
                assert(placements(rows)[k] == placements(front)[k]);
            } else {
                assert(placements(rows)[k] == row_placements(
                    rows.last(),
                )[k - placements(front).len()]);
            }
        }
    }
}

/// The routes lead to the copy whose turn it is, and there are some.
proof fn lemma_copy_used(
    indexes: Seq<IndexStatus>,
    nodes: Map<Seq<char>, Dial>,
    current: bool,
    cursor: usize,
    index: IndexRef,
)
    requires
        routing(indexes, nodes, current, cursor, index) is Ok,
    ensures
        ({
            let routes = routing(indexes, nodes, current, cursor, index)->Ok_0;
            let ids = instance_ids(ready_rows(indexes, index));
            &&& routes.len() > 0
            &&& forall|i: int|
                0 <= i < routes.len() ==> (#[trigger] routes[i]).inst_id == ids[cursor as int
                    % ids.len() as int]
        }),
{
    let ready = ready_rows(indexes, index);
    let ids = instance_ids(ready);
    let inst_id = ids[cursor as int % ids.len() as int];
    let rows = rows_of_instance(ready, inst_id);
    assert forall|i: int| 0 <= i < rows.len() implies (#[trigger] rows[i]).inst_id == inst_id by {
        ready.lemma_filter_pred(|s: IndexStatus| s.inst_id == inst_id, i);
    }
    lemma_same_instance(rows, inst_id);
    let unordered = routes_to(placements(rows), nodes);
    let routes = in_partition_order(unordered);
    partition_order_is_a_reordering(unordered);
    routes.to_multiset_ensures();
    unordered.to_multiset_ensures();
    assert forall|i: int| 0 <= i < routes.len() implies (#[trigger] routes[i]).inst_id
        == inst_id by {
        assert(routes.contains(routes[i]));
        assert(routes.to_multiset().count(routes[i]) > 0);
        assert(unordered.to_multiset().count(routes[i]) > 0);
        assert(unordered.contains(routes[i]));
        let k = choose|k: int| 0 <= k < unordered.len() && unordered[k] == routes[i];
        assert(unordered[k].inst_id == placements(rows)[k].row.inst_id);
    }
}

/// All routes of a scan lead to pieces of one copy of the index, never to a
/// mixture of replicas; they stand in partition order, so that two scans of
/// one copy scatter the same way.
pub proof fn a_routed_scan_reads_one_copy_in_partition_order(
    indexes: Seq<IndexStatus>,
    nodes: Map<Seq<char>, Dial>,
    current: bool,
    cursor: usize,
    index: IndexRef,
)
    requires
        routing(indexes, nodes, current, cursor, index) is Ok,
    ensures
        ({
            let routes = routing(indexes, nodes, current, cursor, index)->Ok_0;
            &&& forall|i: int, j: int|
                0 <= i < routes.len() && 0 <= j < routes.len() ==> (#[trigger] routes[i]).inst_id
                    == (#[trigger] routes[j]).inst_id
            &&& forall|i: int, j: int|
                0 <= i < j < routes.len() ==> !list_less(
                    (#[trigger] routes[j]).partitions,
                    (#[trigger] routes[i]).partitions,
                )
        }),
{
    lemma_copy_used(indexes, nodes, current, cursor, index);
    let ready = ready_rows(indexes, index);
    let unordered = routes_to(placements(chosen_rows(ready, cursor)), nodes);
    partition_order_is_a_reordering(unordered);
}

/// The replicas take turns: whichever instance is named, one of the next as
/// many scans as there are instances is routed to it. The turn counter starts
/// over when it overflows, which is left out here.
pub proof fn every_replica_gets_its_turn(ready: Seq<IndexStatus>, cursor: usize, instance: int)
    requires
        0 <= instance < instance_ids(ready).len(),
        cursor + instance_ids(ready).len() <= usize::MAX,
    ensures
        exists|later: nat|
            later < instance_ids(ready).len() && #[trigger] chosen_rows(
                ready,
                (cursor + later) as usize,
            ) == rows_of_instance(ready, instance_ids(ready)[instance]),
{
    let n = instance_ids(ready).len() as int;
    let now = cursor as int % n;
    let later = if instance >= now {
        instance - now
    } else {
        instance + n - now
    };
    let q = cursor as int / n;
    vstd::arithmetic::div_mod::lemma_fundamental_div_mod(cursor as int, n);
    assert((cursor + later) % n == instance) by {
        let turns = if instance >= now {
            q
        } else {
            q + 1
        };
        assert(n * (q + 1) == n * q + n) by (nonlinear_arith);
        assert(turns * n == n * turns) by (nonlinear_arith);
        vstd::arithmetic::div_mod::lemma_fundamental_div_mod_converse(
            cursor + later,
            n,
            turns,
            instance,
        );
    }
    assert(chosen_rows(ready, (cursor + later as nat) as usize) == rows_of_instance(
        ready,
        instance_ids(ready)[instance],
    ));
}

/// Whether rows make up a copy of the index that a scan can read: every host is
/// known, and together they hold each partition once.
pub open spec fn is_whole_copy(
    index: IndexRef,
    rows: Seq<IndexStatus>,
    nodes: Map<Seq<char>, Dial>,
) -> bool {
    let hosts = placements(rows);
    &&& hosts.len() > 0
    &&& first_unknown(hosts, nodes) is None
    &&& coverage(index, rows, claimed(routes_to(hosts, nodes))) is Ok
}

/// Whether each router is what the one before it became when it was asked for
/// the routes of the index, with no other call between.
pub open spec fn asked_in_a_row(routers: Seq<IndexRouter>, index: IndexRef) -> bool {
    forall|i: int, j: int|
        0 <= i && j == i + 1 && j < routers.len() ==> (#[trigger] routers[j]).routed_once(
            #[trigger] &routers[i],
            index,
        )
}

/// The copy of the index that a router would have a scan read.
pub open spec fn copy_used(router: IndexRouter, index: IndexRef) -> u64 {
    router.spec_routes(index)->Ok_0[0].inst_id
}

proof fn lemma_ids_differ(rows: Seq<IndexStatus>)
    ensures
        instance_ids(rows).no_duplicates(),
    decreases rows.len(),
{
    if rows.len() > 0 {
        lemma_ids_differ(rows.drop_last());
    }
}

proof fn lemma_turns_differ(cursor: int, i: int, j: int, k: int)
    requires
        0 <= cursor,
        0 <= i < j < k,
    ensures
        (cursor + i) % k != (cursor + j) % k,
{
    vstd::arithmetic::div_mod::lemma_fundamental_div_mod(cursor + i, k);
    vstd::arithmetic::div_mod::lemma_fundamental_div_mod(cursor + j, k);
    if (cursor + i) % k == (cursor + j) % k {
        let turns = (cursor + j) / k - (cursor + i) / k;
        assert(k * turns == k * ((cursor + j) / k) - k * ((cursor + i) / k)) by (nonlinear_arith)
            requires
                turns == (cursor + j) / k - (cursor + i) / k,
        ;
        assert(false) by (nonlinear_arith)
            requires
                0 < k * turns < k,
                k > 0,
        ;
    }
}

/// Replicas are used in turn. Where an index has `k` copies, all of them whole,
/// `k + 1` scans in a row are all routed: the first `k` to as many different
/// copies, and the last to the copy that the first one read. The turn counter
/// starting over when it overflows is left out.
pub proof fn replicas_are_used_in_turn(routers: Seq<IndexRouter>, index: IndexRef)
    requires
        routers.len() > 0,
        asked_in_a_row(routers, index),
        ({
            let ready = ready_rows(routers[0].indexes(), index);
            let ids = instance_ids(ready);
            &&& ids.len() >= 1
            &&& routers.len() == ids.len() + 1
            &&& routers[0].cursor() + ids.len() <= usize::MAX
            &&& forall|i: int|
                0 <= i < ids.len() ==> is_whole_copy(
                    index,
                    rows_of_instance(ready, #[trigger] ids[i]),
                    routers[0].nodes(),
                )
        }),
    ensures
        forall|i: int| 0 <= i < routers.len() ==> (#[trigger] routers[i]).spec_routes(index) is Ok,
        forall|i: int, j: int|
            0 <= i < j < routers.len() - 1 ==> copy_used(#[trigger] routers[i], index)
                != copy_used(#[trigger] routers[j], index),
        copy_used(routers.last(), index) == copy_used(routers[0], index),
{
    let ready = ready_rows(routers[0].indexes(), index);
    let ids = instance_ids(ready);
    let k = ids.len() as int;
    let cursor = routers[0].cursor() as int;
    lemma_ids_differ(ready);
    assert forall|i: int| 0 <= i <= k implies (#[trigger] routers[i]).spec_routes(index) is Ok
        && copy_used(routers[i], index) == ids[(cursor + i) % k] by {
        lemma_turn_of(routers, index, i);
    }
    assert forall|i: int, j: int| 0 <= i < j < routers.len() - 1 implies copy_used(
        #[trigger] routers[i],
        index,
    ) != copy_used(#[trigger] routers[j], index) by {
        lemma_turns_differ(cursor, i, j, k);
    }
    vstd::arithmetic::div_mod::lemma_mod_add_multiples_vanish(cursor, k);
    assert(routers.last() == routers[k]);
}

proof fn lemma_in_a_row(routers: Seq<IndexRouter>, index: IndexRef, n: int)
    requires
        0 <= n < routers.len(),
        asked_in_a_row(routers, index),
        ready_rows(routers[0].indexes(), index).len() > 0,
        routers[0].cursor() + n <= usize::MAX,
    ensures
        routers[n].indexes() == routers[0].indexes(),
        routers[n].nodes() == routers[0].nodes(),
        routers[n].cursor() == routers[0].cursor() + n,
    decreases n,
{
    if n > 0 {
        lemma_in_a_row(routers, index, n - 1);
        assert(routers[n].routed_once(&routers[n - 1], index));
    }
}

proof fn lemma_turn_of(routers: Seq<IndexRouter>, index: IndexRef, n: int)
    requires
        0 <= n < routers.len(),
        asked_in_a_row(routers, index),
        ({
            let ready = ready_rows(routers[0].indexes(), index);
            let ids = instance_ids(ready);
            &&& ids.len() >= 1
            &&& routers[0].cursor() + n <= usize::MAX
            &&& forall|i: int|
                0 <= i < ids.len() ==> is_whole_copy(
                    index,
                    rows_of_instance(ready, #[trigger] ids[i]),
                    routers[0].nodes(),
                )
        }),
    ensures
        routers[n].spec_routes(index) is Ok,
        ({
            let ids = instance_ids(ready_rows(routers[0].indexes(), index));
            copy_used(routers[n], index) == ids[(routers[0].cursor() + n) % ids.len() as int]
        }),
{
    let ready = ready_rows(routers[0].indexes(), index);
    let ids = instance_ids(ready);
    lemma_in_a_row(routers, index, n);
    let router = routers[n];
    let at = router.cursor() as int % ids.len() as int;
    assert(is_whole_copy(index, rows_of_instance(ready, ids[at]), router.nodes()));
    lemma_copy_used(
        router.indexes(),
        router.nodes(),
        router.is_current(),
        router.cursor(),
        index,
    );
}

/// The row that a placement is of, and the host's place in the row.
proof fn lemma_placed(rows: Seq<IndexStatus>, k: int) -> (at: (int, int))
    requires
        0 <= k < placements(rows).len(),
    ensures
        0 <= at.0 < rows.len(),
        0 <= at.1 < rows[at.0].partition_map.listing().len(),
        placements(rows)[k].row == rows[at.0],
        placements(rows)[k].host == rows[at.0].partition_map.listing()[at.1].0,
        placements(rows)[k].partitions == rows[at.0].partition_map.listing()[at.1].1@,
    decreases rows.len(),
{
    let front = rows.drop_last();
    if k < placements(front).len() {
        let at = lemma_placed(front, k);
        assert(placements(rows)[k] == placements(front)[k]);
        assert(front[at.0] == rows[at.0]);
        at
    } else {
        let j = k - placements(front).len();
        assert(placements(rows)[k] == row_placements(rows.last())[j]);
        (rows.len() - 1, j)
    }
}

proof fn lemma_unknown(ps: Seq<Placement>, nodes: Map<Seq<char>, Dial>, k: int)
    requires
        first_unknown(ps, nodes) is None,
        0 <= k < ps.len(),
    ensures
        nodes.contains_key(ps[k].host@),
    decreases ps.len(),
{
    if k > 0 {
        assert(ps.skip(1)[k - 1] == ps[k]);
        lemma_unknown(ps.skip(1), nodes, k - 1);
    }
}

/// Where a scan is routed, every route leads to a host of a row of the index
/// that was asked for and of no other: the row's name, bucket, scope and
/// collection are each those of the reference, the row is ready, and the route
/// has the row's ids, the partitions that the row says the host holds and the
/// address that the node map has for the host.
pub proof fn a_route_leads_to_the_index_asked_for(
    indexes: Seq<IndexStatus>,
    nodes: Map<Seq<char>, Dial>,
    current: bool,
    cursor: usize,
    index: IndexRef,
    k: int,
) -> (at: (int, int))
    requires
        routing(indexes, nodes, current, cursor, index) is Ok,
        0 <= k < routing(indexes, nodes, current, cursor, index)->Ok_0.len(),
    ensures
        0 <= at.0 < indexes.len(),
        indexes[at.0].index_name@ == index.name@,
        indexes[at.0].bucket@ == index.bucket@,
        indexes[at.0].scope@ == index.scope@,
        indexes[at.0].collection@ == index.collection@,
        indexes[at.0].status@ == "Ready"@,
        0 <= at.1 < indexes[at.0].partition_map.listing().len(),
        ({
            let route = routing(indexes, nodes, current, cursor, index)->Ok_0[k];
            let (host, partitions) = indexes[at.0].partition_map.listing()[at.1];
            &&& route.defn_id == indexes[at.0].defn_id
            &&& route.inst_id == indexes[at.0].inst_id
            &&& route.replica_id == indexes[at.0].replica_id
            &&& route.partitioned == indexes[at.0].partitioned
            &&& route.partitions == partitions@
            &&& nodes.contains_key(host@)
            &&& route.scan_address == nodes[host@]
        }),
{
    let ready = ready_rows(indexes, index);
    let ids = instance_ids(ready);
    let inst_id = ids[cursor as int % ids.len() as int];
    let rows = chosen_rows(ready, cursor);
    let hosts = placements(rows);
    let unordered = routes_to(hosts, nodes);
    let routes = in_partition_order(unordered);
    partition_order_is_a_reordering(unordered);
    routes.to_multiset_ensures();
    unordered.to_multiset_ensures();
    assert(routes.contains(routes[k]));
    assert(unordered.to_multiset().count(routes[k]) > 0);
    assert(unordered.contains(routes[k]));
    let u = choose|u: int| 0 <= u < unordered.len() && unordered[u] == routes[k];
    lemma_unknown(hosts, nodes, u);
    let (i, j) = lemma_placed(rows, u);
    let row = rows[i];
    let of_index = |s: IndexStatus| s.ready() && is_row_of(s, index);
    let of_instance = |s: IndexStatus| s.inst_id == inst_id;
    assert(rows.contains(row));
    ready.lemma_filter_contains_rev(of_instance, row);
    let r = choose|r: int| 0 <= r < ready.len() && ready[r] == row;
    indexes.lemma_filter_pred(of_index, r);
    indexes.lemma_filter_contains_rev(of_index, row);
    let n = choose|n: int| 0 <= n < indexes.len() && indexes[n] == row;
    (n, j)
}

/// A scan of an index that is not there is refused, and so is one of an index
/// none of whose rows is ready. Which of the two it is goes by whether any row
/// has the name, the bucket, the scope and the collection that were asked for;
/// as long as no topology was read, neither is claimed.
pub proof fn a_missing_index_is_not_found(
    indexes: Seq<IndexStatus>,
    nodes: Map<Seq<char>, Dial>,
    current: bool,
    cursor: usize,
    index: IndexRef,
)
    ensures
        (forall|i: int|
            0 <= i < indexes.len() ==> !((#[trigger] indexes[i]).index_name@ == index.name@
                && indexes[i].bucket@ == index.bucket@ && indexes[i].scope@ == index.scope@
                && indexes[i].collection@ == index.collection@)) ==> routing(
            indexes,
            nodes,
            current,
            cursor,
            index,
        ) == Err::<Seq<RouteView>, RouteError>(
            if current {
                RouteError::IndexNotFound(index)
            } else {
                RouteError::NoTopology
            },
        ),
        (forall|i: int|
            0 <= i < indexes.len() && (#[trigger] indexes[i]).index_name@ == index.name@
                && indexes[i].bucket@ == index.bucket@ && indexes[i].scope@ == index.scope@
                && indexes[i].collection@ == index.collection@ ==> indexes[i].status@ != "Ready"@)
            && (exists|i: int|
            0 <= i < indexes.len() && (#[trigger] indexes[i]).index_name@ == index.name@
                && indexes[i].bucket@ == index.bucket@ && indexes[i].scope@ == index.scope@
                && indexes[i].collection@ == index.collection@) ==> routing(
            indexes,
            nodes,
            current,
            cursor,
            index,
        ) == Err::<Seq<RouteView>, RouteError>(
            if current {
                RouteError::IndexNotReady(index)
            } else {
                RouteError::NoTopology
            },
        ),
        (exists|i: int|
            0 <= i < indexes.len() && (#[trigger] indexes[i]).index_name@ == index.name@
                && indexes[i].bucket@ == index.bucket@ && indexes[i].scope@ == index.scope@
                && indexes[i].collection@ == index.collection@ && indexes[i].status@ == "Ready"@)
            ==> match routing(indexes, nodes, current, cursor, index) {
            Err(RouteError::IndexNotFound(_)) => false,
            Err(RouteError::NoTopology) => false,
            _ => true,
        },
{
    let ready = ready_rows(indexes, index);
    let of_index = |s: IndexStatus| s.ready() && is_row_of(s, index);
    if ready.len() > 0 {
        let row = ready[0];
        assert(ready.contains(row));
        indexes.lemma_filter_pred(of_index, 0);
        indexes.lemma_filter_contains_rev(of_index, row);
        let n = choose|n: int| 0 <= n < indexes.len() && indexes[n] == row;
        assert(indexes[n].status@ == "Ready"@);
    }
    if exists|i: int|
        0 <= i < indexes.len() && (#[trigger] indexes[i]).index_name@ == index.name@
            && indexes[i].bucket@ == index.bucket@ && indexes[i].scope@ == index.scope@
            && indexes[i].collection@ == index.collection@ && indexes[i].status@ == "Ready"@ {
        let i = choose|i: int|
            0 <= i < indexes.len() && (#[trigger] indexes[i]).index_name@ == index.name@
                && indexes[i].bucket@ == index.bucket@ && indexes[i].scope@ == index.scope@
                && indexes[i].collection@ == index.collection@ && indexes[i].status@ == "Ready"@;
        indexes.lemma_filter_contains(of_index, i);
    }
}

/// Every partition that some route leads to is among those claimed, and no
/// others are.
proof fn lemma_claimed_by(routes: Seq<RouteView>, p: u64)
    ensures
        claimed(routes).contains(p) <==> exists|k: int|
            0 <= k < routes.len() && (#[trigger] routes[k]).partitions.contains(p),
    decreases routes.len(),
{
    if routes.len() > 0 {
        let front = routes.drop_last();
        let last = routes.len() - 1;
        lemma_claimed_by(front, p);
        let here = claimed(front);
        let behind = routes[last].partitions;
        if claimed(routes).contains(p) {
            let i = choose|i: int| 0 <= i < claimed(routes).len() && claimed(routes)[i] == p;
            if i < here.len() {
                assert(here[i] == p);
                let k = choose|k: int|
                    0 <= k < front.len() && (#[trigger] front[k]).partitions.contains(p);
                assert(routes[k].partitions.contains(p));
            } else {
                assert(behind[i - here.len()] == p);
                assert(routes[last].partitions.contains(p));
            }
        }
        if exists|k: int| 0 <= k < routes.len() && (#[trigger] routes[k]).partitions.contains(p) {
            let k = choose|k: int|
                0 <= k < routes.len() && (#[trigger] routes[k]).partitions.contains(p);
            if k < last {
                assert(front[k].partitions.contains(p));
                let i = choose|i: int| 0 <= i < here.len() && here[i] == p;
                assert(claimed(routes)[i] == p);
            } else {
                let i = choose|i: int| 0 <= i < behind.len() && behind[i] == p;
                assert(claimed(routes)[here.len() + i] == p);
            }
        }
    }
}

/// A partition that two routes lead to, or that one leads to twice, is claimed
/// twice.
proof fn lemma_claimed_often(routes: Seq<RouteView>, k: int, l: int, p: u64)
    requires
        0 <= k < l < routes.len(),
        routes[k].partitions.contains(p),
        routes[l].partitions.contains(p),
    ensures
        claimed(routes).to_multiset().count(p) >= 2,
    decreases routes.len(),
{
    let front = routes.drop_last();
    let last = routes.len() - 1;
    let behind = routes[last].partitions;
    vstd::seq_lib::lemma_multiset_commutative(claimed(front), behind);
    claimed(front).to_multiset_ensures();
    behind.to_multiset_ensures();
    if l < last {
        lemma_claimed_often(front, k, l, p);
    } else {
        assert(front[k].partitions.contains(p));
        lemma_claimed_by(front, p);
        assert(claimed(front).contains(p));
        assert(claimed(front).to_multiset().count(p) > 0);
        assert(behind.to_multiset().count(p) > 0);
    }
}

/// Some route leads to the partition.
pub open spec fn led_to(routes: Seq<RouteView>, p: u64) -> bool {
    exists|k: int| 0 <= k < routes.len() && (#[trigger] routes[k]).partitions.contains(p)
}

/// Where a scan is routed, no partition is read by two of its routes, and none
/// is left out: below the highest number that any route leads to, every
/// partition has a route. Of an index none of whose rows says that it is
/// partitioned, partition 0 is the only one.
pub proof fn a_routed_scan_leaves_no_partition_out(
    indexes: Seq<IndexStatus>,
    nodes: Map<Seq<char>, Dial>,
    current: bool,
    cursor: usize,
    index: IndexRef,
)
    requires
        routing(indexes, nodes, current, cursor, index) is Ok,
    ensures
        ({
            let routes = routing(indexes, nodes, current, cursor, index)->Ok_0;
            &&& routes.len() > 0
            &&& forall|k: int, l: int, p: u64|
                0 <= k < l < routes.len() && #[trigger] routes[k].partitions.contains(p)
                    ==> !#[trigger] routes[l].partitions.contains(p)
            &&& forall|p: u64, q: u64|
                1 <= p < q && #[trigger] led_to(routes, q) ==> #[trigger] led_to(routes, p)
            &&& (forall|i: int| 0 <= i < indexes.len() ==> !(#[trigger] indexes[i]).partitioned)
                ==> forall|k: int, p: u64|
                0 <= k < routes.len() && #[trigger] routes[k].partitions.contains(p) ==> p == 0
        }),
{
    let ready = ready_rows(indexes, index);
    let rows = chosen_rows(ready, cursor);
    let routes = routing(indexes, nodes, current, cursor, index)->Ok_0;
    let all = claimed(routes);
    a_routed_scan_reads_each_partition_once(indexes, nodes, current, cursor, index);
    all.to_multiset_ensures();
    assert(forall|p: u64| #[trigger] all.to_multiset().count(p) <= 1) by {
        if !any_partitioned(rows) {
            assert forall|p: u64| #[trigger] all.to_multiset().count(p) <= 1 by {
                if all.to_multiset().count(p) >= 2 {
                    assert(all.len() == 1);
                    assert(all.to_multiset().len() == 1);
                    assert(all.to_multiset().remove(p).count(p) >= 1);
                    assert(all.to_multiset().remove(p).len() == 0);
                }
            }
        }
    }
    assert forall|k: int, l: int, p: u64|
        0 <= k < l < routes.len() && #[trigger] routes[k].partitions.contains(
            p,
        ) implies !#[trigger] routes[l].partitions.contains(p) by {
        if routes[l].partitions.contains(p) {
            lemma_claimed_often(routes, k, l, p);
            assert(all.to_multiset().count(p) <= 1);
        }
    }
    assert forall|p: u64, q: u64|
        1 <= p < q && #[trigger] led_to(routes, q) implies #[trigger] led_to(routes, p) by {
        lemma_claimed_by(routes, q);
        lemma_claimed_by(routes, p);
        assert(all.contains(q));
        if any_partitioned(rows) {
            assert(all.to_multiset().count(q) == 1);
            assert(all.to_multiset().count(p) == 1);
            assert(all.contains(p));
        }
    }
    if forall|i: int| 0 <= i < indexes.len() ==> !(#[trigger] indexes[i]).partitioned {
        let of_index = |s: IndexStatus| s.ready() && is_row_of(s, index);
        let ids = instance_ids(ready);
        let inst_id = ids[cursor as int % ids.len() as int];
        if any_partitioned(rows) {
            let i = choose|i: int| 0 <= i < rows.len() && (#[trigger] rows[i]).partitioned;
            assert(rows.contains(rows[i]));
            ready.lemma_filter_contains_rev(|s: IndexStatus| s.inst_id == inst_id, rows[i]);
            indexes.lemma_filter_contains_rev(of_index, rows[i]);
            let n = choose|n: int| 0 <= n < indexes.len() && indexes[n] == rows[i];
            assert(!indexes[n].partitioned);
        }
        assert forall|k: int, p: u64|
            0 <= k < routes.len() && #[trigger] routes[k].partitions.contains(p) implies p == 0 by {
            lemma_claimed_by(routes, p);
            assert(all.contains(p));
        }
    }
}

/// An index with one ready row that is not partitioned and that names one known
/// host for partition 0 is routed to that host, whoever's turn it is.
pub proof fn a_plain_index_is_routed(
    indexes: Seq<IndexStatus>,
    nodes: Map<Seq<char>, Dial>,
    current: bool,
    cursor: usize,
    index: IndexRef,
    at: int,
)
    requires
        0 <= at < indexes.len(),
        indexes[at].index_name@ == index.name@,
        indexes[at].bucket@ == index.bucket@,
        indexes[at].scope@ == index.scope@,
        indexes[at].collection@ == index.collection@,
        indexes[at].status@ == "Ready"@,
        !indexes[at].partitioned,
        indexes[at].partition_map.listing().len() == 1,
        indexes[at].partition_map.listing()[0].1@ == seq![0u64],
        nodes.contains_key(indexes[at].partition_map.listing()[0].0@),
        forall|i: int|
            0 <= i < indexes.len() && i != at ==> !((#[trigger] indexes[i]).index_name@
                == index.name@ && indexes[i].bucket@ == index.bucket@ && indexes[i].scope@
                == index.scope@ && indexes[i].collection@ == index.collection@),
    ensures
        routing(indexes, nodes, current, cursor, index) matches Ok(routes) && routes.len() == 1
            && routes[0].defn_id == indexes[at].defn_id && routes[0].inst_id
            == indexes[at].inst_id && routes[0].partitions == seq![0u64]
            && routes[0].scan_address == nodes[indexes[at].partition_map.listing()[0].0@],
{
    let of_index = |s: IndexStatus| s.ready() && is_row_of(s, index);
    let row = indexes[at];
    lemma_only_kept(indexes, of_index, at);
    let ready = ready_rows(indexes, index);
    assert(ready == seq![row]);
    reveal_with_fuel(instance_ids, 2);
    assert(ready.drop_last() =~= Seq::<IndexStatus>::empty());
    let ids = instance_ids(ready);
    assert(ids =~= seq![row.inst_id]);
    assert(cursor as int % 1 == 0);
    let rows = chosen_rows(ready, cursor);
    let of_instance = |s: IndexStatus| s.inst_id == row.inst_id;
    lemma_only_kept(ready, of_instance, 0);
    assert(rows == seq![row]);
    reveal_with_fuel(placements, 2);
    assert(rows.drop_last() =~= Seq::<IndexStatus>::empty());
    let hosts = placements(rows);
    assert(hosts =~= row_placements(row));
    reveal_with_fuel(first_unknown, 2);
    let routes = routes_to(hosts, nodes);
    reveal_with_fuel(claimed, 2);
    assert(routes.drop_last() =~= Seq::<RouteView>::empty());
    let all = claimed(routes);
    assert(all =~= seq![0u64]);
    assert(!any_partitioned(rows));
    all.to_multiset_ensures();
    if has_repeat(all) {
        let p = choose|p: u64| #[trigger] all.to_multiset().count(p) >= 2;
        assert(all.to_multiset().remove(p).count(p) >= 1);
        assert(all.to_multiset().remove(p).len() == 0);
    }
    partition_order_is_a_reordering(routes);
    let ordered = in_partition_order(routes);
    ordered.to_multiset_ensures();
    routes.to_multiset_ensures();
    assert(ordered.contains(ordered[0]));
    assert(routes.to_multiset().count(ordered[0]) > 0);
    assert(routes.contains(ordered[0]));
}

proof fn lemma_only_kept<A>(s: Seq<A>, keep: spec_fn(A) -> bool, at: int)
    requires
        0 <= at < s.len(),
        forall|i: int| 0 <= i < s.len() ==> (keep(#[trigger] s[i]) <==> i == at),
    ensures
        s.filter(keep) == seq![s[at]],
    decreases s.len(),
{
    reveal(Seq::filter);
    let front = s.drop_last();
    let last = s.len() - 1;
    if at < last {
        assert forall|i: int| 0 <= i < front.len() implies (keep(#[trigger] front[i]) <==> i
            == at) by {
            assert(front[i] == s[i]);
        }
        lemma_only_kept(front, keep, at);
        assert(!keep(s[last]));
    } else {
        lemma_none_kept(front, keep);
        assert(keep(s[last]));
        assert(Seq::<A>::empty().push(s[last]) =~= seq![s[at]]);
    }
}

proof fn lemma_none_kept<A>(s: Seq<A>, keep: spec_fn(A) -> bool)
    requires
        forall|i: int| 0 <= i < s.len() ==> !keep(#[trigger] s[i]),
    ensures
        s.filter(keep) == Seq::<A>::empty(),
    decreases s.len(),
{
    reveal(Seq::filter);
    if s.len() > 0 {
        let front = s.drop_last();
        assert forall|i: int| 0 <= i < front.len() implies !keep(#[trigger] front[i]) by {
            assert(front[i] == s[i]);
        }
        lemma_none_kept(front, keep);
        assert(!keep(s[s.len() - 1]));
    }
}

/// Where a scan goes to a node: the node map has entries only for the nodes of
/// the config that the network reaches and that have both a management port of
/// their own and a scan port there. The entry goes by the host and the plain
/// management port that the cluster knows the node by, and leads to the host
/// and the scan port on the network in use.
pub proof fn a_node_map_leads_to_the_scan_ports(
    nodes: Seq<ParsedConfigNode>,
    network_type: Seq<char>,
    key: Seq<char>,
)
    requires
        config_map_of(reached_nodes(nodes, network_type), network_type).contains_key(key),
    ensures
        exists|i: int|
            0 <= i < nodes.len() && (network_type == "default"@ || (
            #[trigger] nodes[i]).alt_addresses@.contains_key(network_type)) && ({
                let own = nodes[i].addresses;
                let at = if network_type == "default"@ {
                    own
                } else {
                    nodes[i].alt_addresses@[network_type]
                };
                let dial = config_map_of(reached_nodes(nodes, network_type), network_type)[key];
                &&& own.non_ssl_ports.mgmt is Some
                &&& key == own.hostname@ + ":"@ + decimal(own.non_ssl_ports.mgmt->0 as nat)
                &&& dial.host == at.hostname@
                &&& at.non_ssl_ports.index_scan is Some ==> at.non_ssl_ports.index_scan == Some(
                    dial.port,
                )
                &&& at.non_ssl_ports.index_scan is None ==> at.ssl_ports.index_scan == Some(
                    dial.port,
                )
            }),
{
    let reached = reached_nodes(nodes, network_type);
    let j = lemma_map_entry(reached, network_type, key);
    let node = reached[j];
    assert(reached.contains(node));
    crate::parsedconfig::a_network_reaches_the_nodes_that_list_it(nodes, network_type, node);
    assert(nodes.contains(node));
    let i = choose|i: int| 0 <= i < nodes.len() && nodes[i] == node;
    assert(nodes[i] == node);
}

proof fn lemma_map_entry(
    reached: Seq<ParsedConfigNode>,
    network_type: Seq<char>,
    key: Seq<char>,
) -> (j: int)
    requires
        config_map_of(reached, network_type).contains_key(key),
    ensures
        0 <= j < reached.len(),
        with_reached(Map::empty(), reached[j], network_type).contains_key(key),
        with_reached(Map::empty(), reached[j], network_type)[key] == config_map_of(
            reached,
            network_type,
        )[key],
    decreases reached.len(),
{
    let last = reached.len() - 1;
    if with_reached(Map::empty(), reached[last], network_type).contains_key(key) {
        last
    } else {
        let j = lemma_map_entry(reached.drop_last(), network_type, key);
        assert(reached.drop_last()[j] == reached[j]);
        j
    }
}

proof fn lemma_on_the_map(reached: Seq<ParsedConfigNode>, network_type: Seq<char>, j: int)
    requires
        0 <= j < reached.len(),
        ({
            let at = reached_at(reached[j], network_type)->0;
            &&& reached[j].addresses.non_ssl_ports.mgmt is Some
            &&& at.non_ssl_ports.index_scan is Some || at.ssl_ports.index_scan is Some
        }),
    ensures
        config_map_of(reached, network_type).contains_key(
            host_and_port(
                reached[j].addresses.hostname@,
                reached[j].addresses.non_ssl_ports.mgmt->0,
            ),
        ),
    decreases reached.len(),
{
    if j < reached.len() - 1 {
        assert(reached.drop_last()[j] == reached[j]);
        lemma_on_the_map(reached.drop_last(), network_type, j);
    }
}

/// A node that the network reaches, that has a plain management port of its own
/// and a scan port there, plain or over TLS, is on the map under its host and
/// that management port.
pub proof fn a_node_that_serves_scans_is_on_the_map(
    nodes: Seq<ParsedConfigNode>,
    network_type: Seq<char>,
    i: int,
)
    requires
        0 <= i < nodes.len(),
        network_type == "default"@ || nodes[i].alt_addresses@.contains_key(network_type),
        nodes[i].addresses.non_ssl_ports.mgmt is Some,
        ({
            let at = if network_type == "default"@ {
                nodes[i].addresses
            } else {
                nodes[i].alt_addresses@[network_type]
            };
            at.non_ssl_ports.index_scan is Some || at.ssl_ports.index_scan is Some
        }),
    ensures
        config_map_of(reached_nodes(nodes, network_type), network_type).contains_key(
            nodes[i].addresses.hostname@ + ":"@ + decimal(
                nodes[i].addresses.non_ssl_ports.mgmt->0 as nat,
            ),
        ),
{
    let reached = reached_nodes(nodes, network_type);
    assert(nodes.contains(nodes[i]));
    crate::parsedconfig::a_network_reaches_the_nodes_that_list_it(nodes, network_type, nodes[i]);
    assert(reached.contains(nodes[i]));
    let j = choose|j: int| 0 <= j < reached.len() && reached[j] == nodes[i];
    lemma_on_the_map(reached, network_type, j);
}

/// A node with both ports is on the map under its host and management port, and
/// the map leads to the scan host and port of a node of that name.
pub proof fn a_node_is_mapped_from_management_to_scans(
    nodes: Seq<(String, Option<u16>, String, Option<u16>)>,
    i: int,
) -> (j: int)
    requires
        0 <= i < nodes.len(),
        nodes[i].1 is Some,
        nodes[i].3 is Some,
    ensures
        ({
            let key = nodes[i].0@ + ":"@ + decimal(nodes[i].1->0 as nat);
            &&& node_map_of(nodes).contains_key(key)
            &&& i <= j < nodes.len()
            &&& nodes[j].1 is Some && nodes[j].3 is Some
            &&& nodes[j].0@ + ":"@ + decimal(nodes[j].1->0 as nat) == key
            &&& node_map_of(nodes)[key].host == nodes[j].2@
            &&& node_map_of(nodes)[key].port == nodes[j].3->0
        }),
    decreases nodes.len(),
{
    let last = nodes.last();
    let key = nodes[i].0@ + ":"@ + decimal(nodes[i].1->0 as nat);
    if last.1 is Some && last.3 is Some && host_and_port(last.0@, last.1->0) == key {
        nodes.len() - 1
    } else {
        assert(i < nodes.len() - 1);
        assert(nodes.drop_last()[i] == nodes[i]);
        a_node_is_mapped_from_management_to_scans(nodes.drop_last(), i)
    }
}

proof fn lemma_first_declared(rows: Seq<IndexStatus>, n: u32)
    requires
        rows.len() > 0,
        forall|i: int| 0 <= i < rows.len() ==> declared_in((#[trigger] rows[i]).definition@) == Some(n),
    ensures
        first_declared(rows) == Some(n),
    decreases rows.len(),
{
    let front = rows.drop_last();
    if front.len() > 0 {
        assert forall|i: int| 0 <= i < front.len() implies declared_in(
            (#[trigger] front[i]).definition@,
        ) == Some(n) by {
            assert(front[i] == rows[i]);
        }
        lemma_first_declared(front, n);
    } else {
        assert(first_declared(front) is None);
        assert(declared_in(rows[rows.len() - 1].definition@) == Some(n));
    }
}

proof fn lemma_chosen_rows_are_of_the_index(
    indexes: Seq<IndexStatus>,
    cursor: usize,
    index: IndexRef,
    i: int,
) -> (n: int)
    requires
        0 <= i < chosen_rows(ready_rows(indexes, index), cursor).len(),
    ensures
        0 <= n < indexes.len(),
        indexes[n] == chosen_rows(ready_rows(indexes, index), cursor)[i],
        is_row_of(indexes[n], index),
        indexes[n].ready(),
{
    let ready = ready_rows(indexes, index);
    let ids = instance_ids(ready);
    let inst_id = ids[cursor as int % ids.len() as int];
    let rows = chosen_rows(ready, cursor);
    let row = rows[i];
    let of_index = |s: IndexStatus| s.ready() && is_row_of(s, index);
    let of_instance = |s: IndexStatus| s.inst_id == inst_id;
    assert(rows.contains(row));
    ready.lemma_filter_contains_rev(of_instance, row);
    let r = choose|r: int| 0 <= r < ready.len() && ready[r] == row;
    indexes.lemma_filter_pred(of_index, r);
    indexes.lemma_filter_contains_rev(of_index, row);
    choose|n: int| 0 <= n < indexes.len() && indexes[n] == row
}

/// A partitioned index whose statement declares how many partitions it has is
/// routed only where every one of them is reached, and none beyond them is.
pub proof fn every_declared_partition_is_reached(
    indexes: Seq<IndexStatus>,
    nodes: Map<Seq<char>, Dial>,
    current: bool,
    cursor: usize,
    index: IndexRef,
    n: u32,
    p: u64,
)
    requires
        routing(indexes, nodes, current, cursor, index) is Ok,
        forall|i: int|
            0 <= i < indexes.len() && (#[trigger] indexes[i]).index_name@ == index.name@
                && indexes[i].bucket@ == index.bucket@ && indexes[i].scope@ == index.scope@
                && indexes[i].collection@ == index.collection@ ==> indexes[i].partitioned
                && declared_in(indexes[i].definition@) == Some(n),
    ensures
        led_to(routing(indexes, nodes, current, cursor, index)->Ok_0, p) <==> 1 <= p <= n,
{
    let ready = ready_rows(indexes, index);
    let rows = chosen_rows(ready, cursor);
    let routes = routing(indexes, nodes, current, cursor, index)->Ok_0;
    let all = claimed(routes);
    a_routed_scan_reads_each_partition_once(indexes, nodes, current, cursor, index);
    if rows.len() == 0 {
        assert(placements(rows).len() == 0);
        assert(routes_to(placements(rows), nodes).len() == 0);
    }
    assert forall|i: int| 0 <= i < rows.len() implies declared_in((#[trigger] rows[i]).definition@)
        == Some(n) && rows[i].partitioned by {
        let k = lemma_chosen_rows_are_of_the_index(indexes, cursor, index, i);
        assert(indexes[k].index_name@ == index.name@);
    }
    lemma_first_declared(rows, n);
    assert(rows[0].partitioned);
    assert(any_partitioned(rows));
    all.to_multiset_ensures();
    assert(all.to_multiset().count(p) == (if 1 <= p <= n {
        1nat
    } else {
        0nat
    }));
    if led_to(routes, p) {
        let k = choose|k: int| 0 <= k < routes.len() && (#[trigger] routes[k]).partitions.contains(p);
        lemma_led_to_is_claimed(routes, k, p);
        assert(all.contains(p));
    }
    if 1 <= p <= n {
        assert(all.contains(p));
        lemma_claimed_is_led_to(routes, p);
    }
}

proof fn lemma_led_to_is_claimed(routes: Seq<RouteView>, k: int, p: u64)
    requires
        0 <= k < routes.len(),
        routes[k].partitions.contains(p),
    ensures
        claimed(routes).contains(p),
    decreases routes.len(),
{
    let front = claimed(routes.drop_last());
    let behind = routes.last().partitions;
    if k < routes.len() - 1 {
        assert(routes.drop_last()[k] == routes[k]);
        lemma_led_to_is_claimed(routes.drop_last(), k, p);
        let i = choose|i: int| 0 <= i < front.len() && front[i] == p;
        assert((front + behind)[i] == p);
    } else {
        let i = choose|i: int| 0 <= i < behind.len() && behind[i] == p;
        assert((front + behind)[front.len() + i] == p);
    }
}

proof fn lemma_claimed_is_led_to(routes: Seq<RouteView>, p: u64)
    requires
        claimed(routes).contains(p),
    ensures
        led_to(routes, p),
    decreases routes.len(),
{
    let front = claimed(routes.drop_last());
    let behind = routes.last().partitions;
    let i = choose|i: int| 0 <= i < claimed(routes).len() && claimed(routes)[i] == p;
    if i < front.len() {
        assert(front[i] == p);
        lemma_claimed_is_led_to(routes.drop_last(), p);
        let k = choose|k: int|
            0 <= k < routes.drop_last().len() && (
            #[trigger] routes.drop_last()[k]).partitions.contains(p);
        assert(routes[k].partitions.contains(p));
    } else {
        assert(behind[i - front.len()] == p);
        assert(routes[routes.len() - 1].partitions.contains(p));
    }
}

proof fn lemma_unknown_host(ps: Seq<Placement>, nodes: Map<Seq<char>, Dial>) -> (k: int)
    requires
        first_unknown(ps, nodes) is Some,
    ensures
        0 <= k < ps.len(),
        ps[k].host == first_unknown(ps, nodes)->0,
        !nodes.contains_key(ps[k].host@),
    decreases ps.len(),
{
    if !nodes.contains_key(ps[0].host@) {
        0
    } else {
        let k = lemma_unknown_host(ps.skip(1), nodes);
        assert(ps.skip(1)[k] == ps[k + 1]);
        k + 1
    }
}

/// A host that is said to be unknown is one: a ready row of the index names it,
/// and the node map does not have it.
pub proof fn an_unknown_host_is_not_on_the_map(
    indexes: Seq<IndexStatus>,
    nodes: Map<Seq<char>, Dial>,
    current: bool,
    cursor: usize,
    index: IndexRef,
    host: String,
) -> (at: (int, int))
    requires
        routing(indexes, nodes, current, cursor, index) == Err::<Seq<RouteView>, RouteError>(
            RouteError::UnknownNode(host),
        ),
    ensures
        !nodes.contains_key(host@),
        0 <= at.0 < indexes.len(),
        indexes[at.0].index_name@ == index.name@,
        indexes[at.0].bucket@ == index.bucket@,
        indexes[at.0].scope@ == index.scope@,
        indexes[at.0].collection@ == index.collection@,
        indexes[at.0].status@ == "Ready"@,
        0 <= at.1 < indexes[at.0].partition_map.listing().len(),
        indexes[at.0].partition_map.listing()[at.1].0 == host,
{
    let rows = chosen_rows(ready_rows(indexes, index), cursor);
    let k = lemma_unknown_host(placements(rows), nodes);
    let (i, j) = lemma_placed(rows, k);
    let n = lemma_chosen_rows_are_of_the_index(indexes, cursor, index, i);
    (n, j)
}

/// What is wrong with the partitions of a copy is what is said of it. A
/// partition that is claimed twice is named, the lowest of them; where none is,
/// it is said how many there are of how many there should be.
pub proof fn what_is_wrong_with_the_partitions_is_said(
    index: IndexRef,
    rows: Seq<IndexStatus>,
    parts: Seq<u64>,
)
    ensures
        match coverage(index, rows, parts) {
            Ok(_) => parts.no_duplicates(),
            Err(RouteError::PartitionClaimedTwice { index: named, partition }) => {
                &&& named == index
                &&& exists|i: int, j: int|
                    0 <= i < j < parts.len() && #[trigger] parts[i] == partition
                        && #[trigger] parts[j] == partition
                &&& forall|i: int, j: int|
                    0 <= i < j < parts.len() && #[trigger] parts[i] == #[trigger] parts[j]
                        ==> partition <= parts[i]
            },
            Err(RouteError::PartitionsMissing { index: named, held, want }) => {
                &&& named == index
                &&& parts.no_duplicates()
                &&& held == parts.len() as usize
                &&& !any_partitioned(rows) ==> want == 1
            },
            Err(_) => false,
        },
{
    if has_repeat(parts) {
        let some = choose|p: u64| #[trigger] parts.to_multiset().count(p) >= 2;
        lemma_lowest_repeat(parts, some);
        let partition = choose|p: u64| is_first_repeat(parts, p);
        assert(is_first_repeat(parts, partition));
        let (i, j) = lemma_twice(parts, partition);
        assert(parts[i] == partition && parts[j] == partition);
        assert forall|i: int, j: int|
            0 <= i < j < parts.len() && #[trigger] parts[i] == #[trigger] parts[j] implies partition
            <= parts[i] by {
            lemma_counted_twice(parts, i, j);
        }
    } else {
        assert forall|i: int, j: int|
            0 <= i < parts.len() && 0 <= j < parts.len() && i != j implies parts[i] != parts[j] by {
            if parts[i] == parts[j] {
                if i < j {
                    lemma_counted_twice(parts, i, j);
                } else {
                    lemma_counted_twice(parts, j, i);
                }
            }
        }
    }
}

proof fn lemma_counted_twice(s: Seq<u64>, i: int, j: int)
    requires
        0 <= i < j < s.len(),
        s[i] == s[j],
    ensures
        s.to_multiset().count(s[i]) >= 2,
{
    let rest = s.remove(j);
    s.to_multiset_ensures();
    rest.to_multiset_ensures();
    assert(rest[i] == s[i]);
    assert(rest.contains(s[i]));
    assert(rest.to_multiset().count(s[i]) > 0);
}

proof fn lemma_twice(s: Seq<u64>, p: u64) -> (at: (int, int))
    requires
        s.to_multiset().count(p) >= 2,
    ensures
        0 <= at.0 < at.1 < s.len(),
        s[at.0] == p,
        s[at.1] == p,
{
    s.to_multiset_ensures();
    assert(s.contains(p));
    let a = choose|a: int| 0 <= a < s.len() && s[a] == p;
    let rest = s.remove(a);
    rest.to_multiset_ensures();
    assert(rest.to_multiset().count(p) > 0);
    assert(rest.contains(p));
    let b = choose|b: int| 0 <= b < rest.len() && rest[b] == p;
    if b < a {
        assert(s[b] == rest[b]);
        (b, a)
    } else {
        assert(s[b + 1] == rest[b]);
        (a, b + 1)
    }
}

/// Where some number occurs twice, there is a lowest that does.
proof fn lemma_lowest_repeat(s: Seq<u64>, p: u64)
    requires
        s.to_multiset().count(p) >= 2,
    ensures
        exists|q: u64| is_first_repeat(s, q),
    decreases p,
{
    if exists|q: u64| q < p && #[trigger] s.to_multiset().count(q) >= 2 {
        let q = choose|q: u64| q < p && #[trigger] s.to_multiset().count(q) >= 2;
        lemma_lowest_repeat(s, q);
    } else {
        assert(is_first_repeat(s, p));
    }
}

/// An index reads as its name and where it is: bucket, scope and collection, in
/// that order. Why it could not be routed reads with the index in it.
pub proof fn a_route_error_names_the_index(e: RouteError, index: IndexRef)
    ensures
        index.text() == index.name@ + " on "@ + index.bucket@ + "."@ + index.scope@ + "."@
            + index.collection@,
        e == RouteError::IndexNotFound(index) ==> e.text() == "no index "@ + index.text(),
        e == RouteError::IndexNotReady(index) ==> e.text() == "index "@ + index.text()
            + " exists but no instance is ready"@,
        e matches RouteError::PartitionsMissing { index: of, held, want } ==> e.text() == "index "@
            + of.text() + " reports "@ + decimal(held as nat) + " of its "@ + decimal(want as nat)
            + " partitions; the rest are on no host this scan could reach"@,
        e matches RouteError::PartitionClaimedTwice { index: of, partition } ==> e.text()
            == "index "@ + of.text() + " has partition "@ + decimal(partition as nat)
            + " on two hosts, so a scan of it would read that partition twice"@,
        e matches RouteError::UnknownNode(host) ==> e.text() == "node "@ + host@
            + " is not in the cluster config"@,
        e is NoTopology ==> e.text() == "no index topology has been read yet"@,
{
}

/// Two references name the same index only where all four names agree, and two
/// disagreements are the same only where they are about the same index and
/// count the same.
pub proof fn an_index_is_the_same_only_by_all_its_names(
    a: IndexRef,
    b: IndexRef,
    e: RouteError,
    f: RouteError,
)
    ensures
        a.same_as(&b) <==> a.bucket@ == b.bucket@ && a.scope@ == b.scope@ && a.collection@
            == b.collection@ && a.name@ == b.name@,
        e.same_as(&f) ==> e.text() == f.text() && f.same_as(&e),
        e.same_as(&f) ==> (e is IndexNotFound <==> f is IndexNotFound) && (e is IndexNotReady
            <==> f is IndexNotReady) && (e is PartitionsMissing <==> f is PartitionsMissing) && (
        e is PartitionClaimedTwice <==> f is PartitionClaimedTwice) && (e is UnknownNode
            <==> f is UnknownNode) && (e is NoTopology <==> f is NoTopology),
        e == RouteError::IndexNotFound(a) && f == RouteError::IndexNotFound(b) && a.same_as(&b)
            ==> e.same_as(&f),
        e is PartitionsMissing && e.same_as(&f) ==> e->held == f->held && e->want == f->want,
        e is PartitionClaimedTwice && e.same_as(&f) ==> e->partition == f->partition,
{
}

} // verus!
