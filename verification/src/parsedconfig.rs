//! A cluster config as the rest of this crate reads it.
use vstd::prelude::*;
use vstd::string::*;
use crate::string_map::StringMap;
use crate::text::{decimal, owned, push_decimal, same_text};

verus! {

#[derive(Debug, Clone, PartialEq, Eq)]
pub struct ClusterLabels {
    pub cluster_name: Option<String>,
    pub cluster_uuid: Option<String>,
}

/// The ports that a node's services listen on. A service the node does not run
/// has none.
#[derive(Debug, Clone, Copy, PartialEq, Eq)]
pub struct ParsedConfigNodePorts {
    pub kv: Option<u16>,
    pub mgmt: Option<u16>,
    pub analytics: Option<u16>,
    pub query: Option<u16>,
    pub search: Option<u16>,
    /// The indexing service's HTTP port.
    pub index_http: Option<u16>,
    /// The port that scans are sent to.
    pub index_scan: Option<u16>,
}

#[derive(Debug, PartialEq, Eq)]
pub struct ParsedConfigNodeAddresses {
    pub hostname: String,
    pub non_ssl_ports: ParsedConfigNodePorts,
    pub ssl_ports: ParsedConfigNodePorts,
}

impl Clone for ParsedConfigNodeAddresses {
    fn clone(&self) -> (r: ParsedConfigNodeAddresses)
        ensures
            r == *self,
    {
        ParsedConfigNodeAddresses {
            hostname: self.hostname.clone(),
            non_ssl_ports: self.non_ssl_ports,
            ssl_ports: self.ssl_ports,
        }
    }
}

pub struct ParsedConfigNode {
    pub has_data: bool,
    pub addresses: ParsedConfigNodeAddresses,
    /// The node's addresses on other networks, by the network's name.
    pub alt_addresses: StringMap<ParsedConfigNodeAddresses>,
}

/// What a bucket can do.
#[derive(Debug, Clone, Copy, PartialEq, Eq, Structural)]
pub enum ParsedConfigBucketFeature {
    CreateAsDeleted,
    ReplaceBodyWithXattr,
    RangeScan,
    ReplicaRead,
    NonDedupedHistory,
    ReviveDocument,
    /// A known capability that nothing here asks about.
    Other,
    Unknown,
}

/// The capabilities that are known and that nothing here asks about.
pub open spec fn is_other_capability(name: Seq<char>) -> bool {
    name == "collections"@
        || name == "durableWrite"@
        || name == "cbhello"@
        || name == "touch"@
        || name == "couchapi"@
        || name == "cccp"@
        || name == "nodesExt"@
        || name == "dcp"@
        || name == "xattr"@
        || name == "preserveExpiry"@
        || name == "xdcrCheckpointing"@
}

/// What a bucket can do that lists a capability of this name.
pub open spec fn feature_named(name: Seq<char>) -> ParsedConfigBucketFeature {
    if name == "tombstonedUserXAttrs"@ {
        ParsedConfigBucketFeature::CreateAsDeleted
    } else if name == "subdoc.ReplaceBodyWithXattr"@ {
        ParsedConfigBucketFeature::ReplaceBodyWithXattr
    } else if name == "rangeScan"@ {
        ParsedConfigBucketFeature::RangeScan
    } else if name == "subdoc.ReplicaRead"@ {
        ParsedConfigBucketFeature::ReplicaRead
    } else if name == "nonDedupedHistory"@ {
        ParsedConfigBucketFeature::NonDedupedHistory
    } else if name == "subdoc.ReviveDocument"@ {
        ParsedConfigBucketFeature::ReviveDocument
    } else if is_other_capability(name) {
        ParsedConfigBucketFeature::Other
    } else {
        ParsedConfigBucketFeature::Unknown
    }
}

/// Reads the name of a capability.
pub fn bucket_feature(name: &str) -> (r: ParsedConfigBucketFeature)
    ensures
        r == feature_named(name@),
{
    if same_text(name, "tombstonedUserXAttrs") {
        ParsedConfigBucketFeature::CreateAsDeleted
    } else if same_text(name, "subdoc.ReplaceBodyWithXattr") {
        ParsedConfigBucketFeature::ReplaceBodyWithXattr
    } else if same_text(name, "rangeScan") {
        ParsedConfigBucketFeature::RangeScan
    } else if same_text(name, "subdoc.ReplicaRead") {
        ParsedConfigBucketFeature::ReplicaRead
    } else if same_text(name, "nonDedupedHistory") {
        ParsedConfigBucketFeature::NonDedupedHistory
    } else if same_text(name, "subdoc.ReviveDocument") {
        ParsedConfigBucketFeature::ReviveDocument
    } else if same_text(name, "collections")
        || same_text(name, "durableWrite")
        || same_text(name, "cbhello")
        || same_text(name, "touch")
        || same_text(name, "couchapi")
        || same_text(name, "cccp")
        || same_text(name, "nodesExt")
        || same_text(name, "dcp")
        || same_text(name, "xattr")
        || same_text(name, "preserveExpiry")
        || same_text(name, "xdcrCheckpointing") {
        ParsedConfigBucketFeature::Other
    } else {
        ParsedConfigBucketFeature::Unknown
    }
}

#[derive(Debug, Clone, Copy, PartialEq, Eq, Structural)]
pub enum ParsedConfigFeature {
    FtsVectorSearch,
}

#[derive(Debug, Clone, Copy, PartialEq, Eq, Structural)]
pub enum BucketType {
    Couchbase,
    Invalid,
}

/// Which servers hold each vbucket: for each, the active one and then its
/// replicas, by their place in the server list.
#[derive(Debug, PartialEq, Eq)]
pub struct VbucketMap {
    pub entries: Vec<Vec<i16>>,
    pub num_replicas: usize,
}

impl VbucketMap {
    /// The rows of the map.
    pub open spec fn rows(&self) -> Seq<Seq<i16>> {
        self.entries@.map_values(|row: Vec<i16>| row@)
    }
}

impl Clone for VbucketMap {
    fn clone(&self) -> (r: VbucketMap)
        ensures
            r.rows() == self.rows(),
            r.num_replicas == self.num_replicas,
    {
        let mut entries: Vec<Vec<i16>> = Vec::new();
        let mut i: usize = 0;
        while i < self.entries.len()
            invariant
                i <= self.entries.len(),
                entries@.len() == i,
                forall|j: int| 0 <= j < i ==> (#[trigger] entries@[j])@ == self.entries@[j]@,
            decreases self.entries.len() - i,
        {
            let row: Vec<i16> = self.entries[i].clone();
            assert(row@ =~= self.entries@[i as int]@);
            entries.push(row);
            i += 1;
        }
        let r = VbucketMap { entries, num_replicas: self.num_replicas };
        assert(r.rows() =~= self.rows());
        r
    }
}

pub struct ParsedConfigBucket {
    pub bucket_uuid: String,
    pub bucket_name: String,
    pub bucket_type: BucketType,
    pub vbucket_map: Option<VbucketMap>,
    pub features: Vec<ParsedConfigBucketFeature>,
}

impl Default for ParsedConfig {
    fn default() -> (r: ParsedConfig)
        ensures
            r.rev_id == 0,
            r.rev_epoch == 0,
            r.bucket is None,
            r.nodes@.len() == 0,
            r.features@.len() == 0,
            r.source_hostname@.len() == 0,
            r.cluster_labels is None,
    {
        proof {
            reveal_strlit("");
        }
        ParsedConfig {
            rev_id: 0,
            rev_epoch: 0,
            bucket: None,
            nodes: Vec::new(),
            features: Vec::new(),
            source_hostname: owned(""),
            cluster_labels: None,
        }
    }
}

pub struct ParsedConfig {
    pub rev_id: i64,
    pub rev_epoch: i64,
    pub bucket: Option<ParsedConfigBucket>,
    pub nodes: Vec<ParsedConfigNode>,
    pub features: Vec<ParsedConfigFeature>,
    pub source_hostname: String,
    pub cluster_labels: Option<ClusterLabels>,
}

/// The name and ports that the cluster itself knows a node by.
#[derive(Debug, PartialEq, Eq)]
pub struct CanonicalNodeInfo {
    pub hostname: String,
    pub non_ssl_ports: ParsedConfigNodePorts,
    pub ssl_ports: ParsedConfigNodePorts,
}

/// A node as it is reached over one network.
#[derive(Debug, PartialEq, Eq)]
pub struct NetworkConfigNode {
    pub node_id: String,
    pub hostname: String,
    pub has_data: bool,
    pub non_ssl_ports: ParsedConfigNodePorts,
    pub ssl_ports: ParsedConfigNodePorts,
    pub canonical_node_info: CanonicalNodeInfo,
}

#[derive(Debug, PartialEq, Eq)]
pub struct NetworkConfig {
    pub nodes: Vec<NetworkConfigNode>,
}

/// The id of a node: its canonical host and management port, 0 where it has
/// none.
pub open spec fn node_id_text(addresses: ParsedConfigNodeAddresses) -> Seq<char> {
    "ep-"@ + addresses.hostname@ + "-"@ + decimal(
        (match addresses.non_ssl_ports.mgmt {
            Some(p) => p,
            None => 0u16,
        }) as nat,
    )
}

/// The addresses at which a node is reached over a network: its canonical ones
/// on the default network, else those listed for the network, if any are.
pub open spec fn reached_at(node: ParsedConfigNode, network_type: Seq<char>) -> Option<
    ParsedConfigNodeAddresses,
> {
    if network_type == "default"@ {
        Some(node.addresses)
    } else if node.alt_addresses@.contains_key(network_type) {
        Some(node.alt_addresses@[network_type])
    } else {
        None
    }
}

/// `out` is `node` reached at `at`.
pub open spec fn is_node_at(
    out: NetworkConfigNode,
    node: ParsedConfigNode,
    at: ParsedConfigNodeAddresses,
) -> bool {
    &&& out.node_id@ == node_id_text(node.addresses)
    &&& out.hostname@ == at.hostname@
    &&& out.has_data == node.has_data
    &&& out.non_ssl_ports == at.non_ssl_ports
    &&& out.ssl_ports == at.ssl_ports
    &&& out.canonical_node_info.hostname@ == node.addresses.hostname@
    &&& out.canonical_node_info.non_ssl_ports == node.addresses.non_ssl_ports
    &&& out.canonical_node_info.ssl_ports == node.addresses.ssl_ports
}

/// The nodes that a network reaches, in the order in which the config lists
/// them.
pub open spec fn reached_nodes(nodes: Seq<ParsedConfigNode>, network_type: Seq<char>) -> Seq<
    ParsedConfigNode,
> {
    nodes.filter(|node: ParsedConfigNode| reached_at(node, network_type) is Some)
}

/// `out` lists the nodes that the network reaches, each as it is reached.
pub open spec fn is_network(
    out: Seq<NetworkConfigNode>,
    nodes: Seq<ParsedConfigNode>,
    network_type: Seq<char>,
) -> bool {
    let reached = reached_nodes(nodes, network_type);
    &&& out.len() == reached.len()
    &&& forall|i: int|
        0 <= i < out.len() ==> is_node_at(
            #[trigger] out[i],
            reached[i],
            reached_at(reached[i], network_type)->0,
        )
}

impl ParsedConfig {
    /// The nodes as they are reached over a network. A node that the network
    /// does not list an address for is left out.
    pub fn addresses_group_for_network_type(&self, network_type: &str) -> (r: NetworkConfig)
        ensures
            is_network(r.nodes@, self.nodes@, network_type@),
    {
        let is_default: bool = same_text(network_type, "default");
        let ghost keep = |node: ParsedConfigNode| reached_at(node, network_type@) is Some;
        let mut nodes: Vec<NetworkConfigNode> = Vec::new();
        let mut i: usize = 0;
        proof {
            reveal(Seq::filter);
            assert(self.nodes@.take(0) =~= Seq::<ParsedConfigNode>::empty());
        }
        while i < self.nodes.len()
            invariant
                i <= self.nodes.len(),
                is_default == (network_type@ == "default"@),
                keep == (|node: ParsedConfigNode| reached_at(node, network_type@) is Some),
                is_network(nodes@, self.nodes@.take(i as int), network_type@),
            decreases self.nodes.len() - i,
        {
            let node: &ParsedConfigNode = &self.nodes[i];
            proof {
                reveal(Seq::filter);
                assert(self.nodes@.take(i + 1).drop_last() =~= self.nodes@.take(i as int));
                assert(self.nodes@.take(i + 1).last() == *node);
            }
            let at: Option<&ParsedConfigNodeAddresses> = if is_default {
                Some(&node.addresses)
            } else {
                node.alt_addresses.get(network_type)
            };
            match at {
                Some(at) => {
                    let mut node_id: String = owned("ep-");
                    node_id.append(node.addresses.hostname.as_str());
                    node_id.append("-");
                    let mgmt: u16 = match node.addresses.non_ssl_ports.mgmt {
                        Some(p) => p,
                        None => 0,
                    };
                    push_decimal(&mut node_id, mgmt as u64);
                    nodes.push(
                        NetworkConfigNode {
                            node_id,
                            hostname: at.hostname.clone(),
                            has_data: node.has_data,
                            non_ssl_ports: at.non_ssl_ports,
                            ssl_ports: at.ssl_ports,
                            canonical_node_info: CanonicalNodeInfo {
                                hostname: node.addresses.hostname.clone(),
                                non_ssl_ports: node.addresses.non_ssl_ports,
                                ssl_ports: node.addresses.ssl_ports,
                            },
                        },
                    );
                },
                None => {},
            }
            i += 1;
        }
        assert(self.nodes@.take(self.nodes@.len() as int) =~= self.nodes@);
        NetworkConfig { nodes }
    }
}

/// A filter that keeps everything changes nothing.
proof fn lemma_all_kept<A>(s: Seq<A>, keep: spec_fn(A) -> bool)
    requires
        forall|i: int| 0 <= i < s.len() ==> keep(#[trigger] s[i]),
    ensures
        s.filter(keep) == s,
    decreases s.len(),
{
    reveal(Seq::filter);
    if s.len() > 0 {
        let front = s.drop_last();
        assert forall|i: int| 0 <= i < front.len() implies keep(#[trigger] front[i]) by {
            assert(keep(s[i]));
        }
        lemma_all_kept(front, keep);
        assert(keep(s[s.len() - 1]));
        assert(front.push(s.last()) =~= s);
    }
}

/// The default network reaches every node, in the config's order and at its own
/// address. Any other network reaches the nodes that list an address for it,
/// and no others.
pub proof fn a_network_reaches_the_nodes_that_list_it(
    nodes: Seq<ParsedConfigNode>,
    network_type: Seq<char>,
    node: ParsedConfigNode,
)
    ensures
        network_type == "default"@ ==> reached_nodes(nodes, network_type) == nodes && reached_at(
            node,
            network_type,
        ) == Some(node.addresses),
        network_type != "default"@ ==> (reached_nodes(nodes, network_type).contains(node)
            <==> nodes.contains(node) && node.alt_addresses@.contains_key(network_type)),
        network_type != "default"@ && node.alt_addresses@.contains_key(network_type) ==> reached_at(
            node,
            network_type,
        ) == Some(node.alt_addresses@[network_type]),
{
    let keep = |node: ParsedConfigNode| reached_at(node, network_type) is Some;
    let reached = reached_nodes(nodes, network_type);
    if network_type == "default"@ {
        lemma_all_kept(nodes, keep);
    } else {
        if reached.contains(node) {
            nodes.lemma_filter_contains_rev(keep, node);
            let i = choose|i: int| 0 <= i < reached.len() && reached[i] == node;
            nodes.lemma_filter_pred(keep, i);
        }
        if nodes.contains(node) && node.alt_addresses@.contains_key(network_type) {
            let i = choose|i: int| 0 <= i < nodes.len() && nodes[i] == node;
            nodes.lemma_filter_contains(keep, i);
        }
    }
}

/// Each node of a network is one of the config's nodes: at the host and the
/// ports that the network has for it, and with the name and the ports that the
/// cluster knows it by. Over the default network the two are the same, and
/// every node is there.
pub proof fn a_network_node_is_a_node_of_the_config(
    out: Seq<NetworkConfigNode>,
    nodes: Seq<ParsedConfigNode>,
    network_type: Seq<char>,
    k: int,
)
    requires
        is_network(out, nodes, network_type),
        0 <= k < out.len(),
    ensures
        network_type == "default"@ ==> out.len() == nodes.len() && out[k].hostname@
            == nodes[k].addresses.hostname@ && out[k].non_ssl_ports
            == nodes[k].addresses.non_ssl_ports && out[k].ssl_ports
            == nodes[k].addresses.ssl_ports && out[k].has_data == nodes[k].has_data
            && out[k].canonical_node_info.hostname@ == nodes[k].addresses.hostname@
            && out[k].canonical_node_info.non_ssl_ports == nodes[k].addresses.non_ssl_ports
            && out[k].canonical_node_info.ssl_ports == nodes[k].addresses.ssl_ports,
        network_type != "default"@ ==> exists|i: int|
            0 <= i < nodes.len() && (#[trigger] nodes[i]).alt_addresses@.contains_key(network_type)
                && out[k].hostname@ == nodes[i].alt_addresses@[network_type].hostname@
                && out[k].non_ssl_ports == nodes[i].alt_addresses@[network_type].non_ssl_ports
                && out[k].ssl_ports == nodes[i].alt_addresses@[network_type].ssl_ports
                && out[k].has_data == nodes[i].has_data && out[k].canonical_node_info.hostname@
                == nodes[i].addresses.hostname@ && out[k].canonical_node_info.non_ssl_ports
                == nodes[i].addresses.non_ssl_ports && out[k].canonical_node_info.ssl_ports
                == nodes[i].addresses.ssl_ports,
{
    let reached = reached_nodes(nodes, network_type);
    let node = reached[k];
    assert(is_node_at(out[k], node, reached_at(node, network_type)->0));
    assert(reached.contains(node));
    a_network_reaches_the_nodes_that_list_it(nodes, network_type, node);
    if network_type != "default"@ {
        let i = choose|i: int| 0 <= i < nodes.len() && nodes[i] == node;
        assert(nodes[i].alt_addresses@.contains_key(network_type));
    }
}

/// A capability is known by the server's name for it, each by its own.
pub proof fn a_capability_is_known_by_its_name(name: Seq<char>)
    ensures
        feature_named(name) == ParsedConfigBucketFeature::CreateAsDeleted <==> name
            == "tombstonedUserXAttrs"@,
        feature_named("subdoc.ReplaceBodyWithXattr"@)
            == ParsedConfigBucketFeature::ReplaceBodyWithXattr,
        feature_named("rangeScan"@) == ParsedConfigBucketFeature::RangeScan,
        feature_named("subdoc.ReplicaRead"@) == ParsedConfigBucketFeature::ReplicaRead,
        feature_named("nonDedupedHistory"@) == ParsedConfigBucketFeature::NonDedupedHistory,
        feature_named("subdoc.ReviveDocument"@) == ParsedConfigBucketFeature::ReviveDocument,
        feature_named(name) == ParsedConfigBucketFeature::ReplaceBodyWithXattr ==> name
            == "subdoc.ReplaceBodyWithXattr"@,
        feature_named(name) == ParsedConfigBucketFeature::RangeScan ==> name == "rangeScan"@,
        feature_named(name) == ParsedConfigBucketFeature::ReplicaRead ==> name
            == "subdoc.ReplicaRead"@,
        feature_named(name) == ParsedConfigBucketFeature::NonDedupedHistory ==> name
            == "nonDedupedHistory"@,
        feature_named(name) == ParsedConfigBucketFeature::ReviveDocument ==> name
            == "subdoc.ReviveDocument"@,
        feature_named(name) == ParsedConfigBucketFeature::Other ==> name == "collections"@ || name
            == "durableWrite"@ || name == "cbhello"@ || name == "touch"@ || name == "couchapi"@
            || name == "cccp"@ || name == "nodesExt"@ || name == "dcp"@ || name == "xattr"@ || name
            == "preserveExpiry"@ || name == "xdcrCheckpointing"@,
        name == "collections"@ || name == "durableWrite"@ || name == "cbhello"@ || name == "touch"@
            || name == "couchapi"@ || name == "cccp"@ || name == "nodesExt"@ || name == "dcp"@
            || name == "xattr"@ || name == "preserveExpiry"@ || name == "xdcrCheckpointing"@
            ==> feature_named(name) != ParsedConfigBucketFeature::Unknown,
{
    reveal_strlit("tombstonedUserXAttrs");
    reveal_strlit("subdoc.ReplaceBodyWithXattr");
    reveal_strlit("rangeScan");
    reveal_strlit("subdoc.ReplicaRead");
    reveal_strlit("nonDedupedHistory");
    reveal_strlit("subdoc.ReviveDocument");
    assert("tombstonedUserXAttrs"@.len() == 20);
    assert("subdoc.ReplaceBodyWithXattr"@.len() == 27);
    assert("rangeScan"@.len() == 9);
    assert("subdoc.ReplicaRead"@.len() == 18);
    assert("nonDedupedHistory"@.len() == 17);
    assert("subdoc.ReviveDocument"@.len() == 21);
}

} // verus!
