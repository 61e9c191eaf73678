//! Reading the config that a node of the cluster publishes.
use vstd::prelude::*;
use vstd::string::*;
use crate::error::{Error, ErrorKind};
use crate::parsedconfig::{
    BucketType, ClusterLabels, ParsedConfig, ParsedConfigBucket, ParsedConfigBucketFeature,
    ParsedConfigFeature, ParsedConfigNode, ParsedConfigNodeAddresses, ParsedConfigNodePorts,
    VbucketMap,
};
use crate::string_map::{listed_at, StringMap};
use crate::text::{contains, contains_text, owned, same_text};

verus! {

/// The ports that a config lists for a node, by the names it gives them.
#[derive(Debug, Clone, Copy, PartialEq, Eq)]
pub struct TerseExtNodePorts {
    pub kv: Option<u16>,
    pub kv_ssl: Option<u16>,
    pub mgmt: Option<u16>,
    pub mgmt_ssl: Option<u16>,
    pub n1ql: Option<u16>,
    pub n1ql_ssl: Option<u16>,
    pub fts: Option<u16>,
    pub fts_ssl: Option<u16>,
    pub cbas: Option<u16>,
    pub cbas_ssl: Option<u16>,
    pub gsi: Option<u16>,
    pub gsi_ssl: Option<u16>,
    pub index_scan: Option<u16>,
}

/// No ports at all.
pub open spec fn no_ports() -> TerseExtNodePorts {
    TerseExtNodePorts {
        kv: None,
        kv_ssl: None,
        mgmt: None,
        mgmt_ssl: None,
        n1ql: None,
        n1ql_ssl: None,
        fts: None,
        fts_ssl: None,
        cbas: None,
        cbas_ssl: None,
        gsi: None,
        gsi_ssl: None,
        index_scan: None,
    }
}

impl Default for TerseExtNodePorts {
    fn default() -> (r: TerseExtNodePorts)
        ensures
            r == no_ports(),
    {
        TerseExtNodePorts {
            kv: None,
            kv_ssl: None,
            mgmt: None,
            mgmt_ssl: None,
            n1ql: None,
            n1ql_ssl: None,
            fts: None,
            fts_ssl: None,
            cbas: None,
            cbas_ssl: None,
            gsi: None,
            gsi_ssl: None,
            index_scan: None,
        }
    }
}

#[derive(Debug, Clone, PartialEq, Eq)]
pub struct TerseExtNodeAltAddresses {
    pub hostname: Option<String>,
    pub ports: TerseExtNodePorts,
}

pub struct TerseExtNodeConfig {
    pub services: Option<TerseExtNodePorts>,
    pub hostname: Option<String>,
    pub alternate_addresses: StringMap<TerseExtNodeAltAddresses>,
}

#[derive(Debug, Clone, PartialEq, Eq)]
pub struct TerseNodeConfig {
    pub hostname: Option<String>,
}

#[derive(Debug, Clone, PartialEq, Eq)]
pub struct VBucketServerMap {
    pub num_replicas: usize,
    pub vbucket_map: Vec<Vec<i16>>,
}

/// A config as a node publishes it. The bucket's capabilities are already the
/// features they name.
pub struct TerseConfig {
    pub rev: i64,
    pub rev_epoch: Option<i64>,
    pub name: Option<String>,
    pub node_locator: Option<String>,
    pub uuid: Option<String>,
    pub bucket_capabilities: Option<Vec<ParsedConfigBucketFeature>>,
    pub cluster_capabilities: StringMap<Vec<String>>,
    pub vbucket_server_map: Option<VBucketServerMap>,
    pub nodes: Option<Vec<TerseNodeConfig>>,
    pub nodes_ext: Vec<TerseExtNodeConfig>,
    pub cluster_name: Option<String>,
    pub cluster_uuid: Option<String>,
}

/// The host that a node is dialled at. One that the config does not name is
/// the one the config came from; an IPv6 address goes into brackets.
pub open spec fn hostname_text(hostname: Option<String>, source: Seq<char>) -> Seq<char> {
    match hostname {
        Some(h) => if contains_text(h@, ":"@) {
            "["@ + h@ + "]"@
        } else {
            h@
        },
        None => source,
    }
}

/// The ports for connections in the clear.
pub open spec fn plain_ports(ports: TerseExtNodePorts) -> ParsedConfigNodePorts {
    ParsedConfigNodePorts {
        kv: ports.kv,
        mgmt: ports.mgmt,
        analytics: ports.cbas,
        query: ports.n1ql,
        search: ports.fts,
        index_http: ports.gsi,
        index_scan: ports.index_scan,
    }
}

/// The ports for connections over TLS. The server advertises no scan port of
/// its own for TLS: it is the plain one with TLS on top.
pub open spec fn tls_ports(ports: TerseExtNodePorts) -> ParsedConfigNodePorts {
    ParsedConfigNodePorts {
        kv: ports.kv_ssl,
        mgmt: ports.mgmt_ssl,
        analytics: ports.cbas_ssl,
        query: ports.n1ql_ssl,
        search: ports.fts_ssl,
        index_http: ports.gsi_ssl,
        index_scan: ports.index_scan,
    }
}

/// `a` is this host with these ports.
pub open spec fn are_hosts(
    a: ParsedConfigNodeAddresses,
    hostname: Seq<char>,
    ports: TerseExtNodePorts,
) -> bool {
    &&& a.hostname@ == hostname
    &&& a.non_ssl_ports == plain_ports(ports)
    &&& a.ssl_ports == tls_ports(ports)
}

/// `alt` holds an address for each network that the config lists, and no
/// others. A host that is not named there is the node's own.
pub open spec fn are_alternates(
    alt: Map<Seq<char>, ParsedConfigNodeAddresses>,
    listed: Map<Seq<char>, TerseExtNodeAltAddresses>,
    node_hostname: Seq<char>,
) -> bool {
    &&& alt.dom() == listed.dom()
    &&& forall|network: Seq<char>|
        #[trigger] listed.contains_key(network) ==> are_hosts(
            alt[network],
            hostname_text(listed[network].hostname, node_hostname),
            listed[network].ports,
        )
}

/// `out` is what the config says of the node in place `at`. The first
/// `data_nodes` of the nodes hold data.
pub open spec fn is_parsed_node(
    out: ParsedConfigNode,
    node: TerseExtNodeConfig,
    at: int,
    data_nodes: nat,
    source: Seq<char>,
) -> bool {
    let hostname = hostname_text(node.hostname, source);
    &&& out.has_data == (at < data_nodes)
    &&& are_hosts(
        out.addresses,
        hostname,
        match node.services {
            Some(ports) => ports,
            None => no_ports(),
        },
    )
    &&& are_alternates(out.alt_addresses@, node.alternate_addresses@, hostname)
}

pub open spec fn is_vbucket_bucket(config: TerseConfig) -> bool {
    config.node_locator matches Some(locator) && locator@ == "vbucket"@
}

/// The config names a bucket whose vbucket map has no vbuckets in it.
pub open spec fn has_empty_map(config: TerseConfig) -> bool {
    &&& config.name is Some
    &&& is_vbucket_bucket(config)
    &&& config.vbucket_server_map matches Some(map)
    &&& map.vbucket_map@.len() == 0
}

/// `out` is what the config says of its bucket: nothing where it names none.
pub open spec fn is_parsed_bucket(out: Option<ParsedConfigBucket>, config: TerseConfig) -> bool {
    match config.name {
        None => out is None,
        Some(name) => {
            &&& out matches Some(bucket)
            &&& bucket.bucket_name == name
            &&& match config.uuid {
                Some(uuid) => bucket.bucket_uuid == uuid,
                None => bucket.bucket_uuid@.len() == 0,
            }
            &&& bucket.bucket_type == (if is_vbucket_bucket(config) {
                BucketType::Couchbase
            } else {
                BucketType::Invalid
            })
            &&& if is_vbucket_bucket(config) {
                is_parsed_map(bucket.vbucket_map, config.vbucket_server_map)
            } else {
                bucket.vbucket_map is None
            }
            &&& bucket.features@ == known_features(config.bucket_capabilities)
        },
    }
}

pub open spec fn is_parsed_map(out: Option<VbucketMap>, map: Option<VBucketServerMap>) -> bool {
    match map {
        Some(map) => out == Some(
            VbucketMap { entries: map.vbucket_map, num_replicas: map.num_replicas },
        ),
        None => out is None,
    }
}

/// The capabilities that are known, in the order in which they are listed.
pub open spec fn known_features(caps: Option<Vec<ParsedConfigBucketFeature>>) -> Seq<
    ParsedConfigBucketFeature,
> {
    match caps {
        Some(caps) => caps@.filter(
            |f: ParsedConfigBucketFeature| f != ParsedConfigBucketFeature::Unknown,
        ),
        None => Seq::empty(),
    }
}

/// Whether the cluster's search service can search vectors.
pub open spec fn lists_vector_search(caps: Map<Seq<char>, Vec<String>>) -> bool {
    caps.contains_key("search"@) && exists|i: int|
        0 <= i < caps["search"@]@.len() && (#[trigger] caps["search"@]@[i])@ == "vectorSearch"@
}

/// `out` is what `config` says, read from a node that was reached as `source`.
pub open spec fn is_parsed(out: ParsedConfig, config: TerseConfig, source: Seq<char>) -> bool {
    let data_nodes = match config.nodes {
        Some(nodes) => nodes@.len(),
        None => 0,
    };
    &&& out.rev_id == config.rev
    &&& out.rev_epoch == (match config.rev_epoch {
        Some(epoch) => epoch,
        None => 0,
    })
    &&& out.nodes@.len() == config.nodes_ext@.len()
    &&& forall|i: int|
        0 <= i < config.nodes_ext@.len() ==> is_parsed_node(
            out.nodes@[i],
            #[trigger] config.nodes_ext@[i],
            i,
            data_nodes,
            source,
        )
    &&& is_parsed_bucket(out.bucket, config)
    &&& out.features@ == (if lists_vector_search(config.cluster_capabilities@) {
        seq![ParsedConfigFeature::FtsVectorSearch]
    } else {
        Seq::empty()
    })
    &&& out.source_hostname@ == source
    &&& out.cluster_labels == (if config.cluster_name is Some || config.cluster_uuid is Some {
        Some(
            ClusterLabels {
                cluster_name: config.cluster_name,
                cluster_uuid: config.cluster_uuid,
            },
        )
    } else {
        None
    })
}

pub struct ConfigParser {}

impl ConfigParser {
    /// Reads a config that came from `source_hostname`. A bucket whose vbucket
    /// map is empty is refused.
    pub fn parse_terse_config(config: TerseConfig, source_hostname: &str) -> (r: Result<
        ParsedConfig,
        Error,
    >)
        ensures
            r is Err <==> has_empty_map(config),
            r matches Err(e) ==> e.spec_kind() == ErrorKind::NoVbucketMap
                && e.spec_retry_info() is None,
            r matches Ok(out) ==> is_parsed(out, config, source_hostname@),
    {
        let ghost whole = config;
        let rev_epoch: i64 = match config.rev_epoch {
            Some(epoch) => epoch,
            None => 0,
        };
        let len_nodes: usize = match &config.nodes {
            Some(nodes) => nodes.len(),
            None => 0,
        };
        let mut nodes: Vec<ParsedConfigNode> = Vec::new();
        let mut node_idx: usize = 0;
        while node_idx < config.nodes_ext.len()
            invariant
                node_idx <= config.nodes_ext.len(),
                config == whole,
                len_nodes == (match config.nodes {
                    Some(nodes) => nodes@.len(),
                    None => 0,
                }),
                nodes@.len() == node_idx,
                forall|i: int|
                    0 <= i < node_idx ==> is_parsed_node(
                        nodes@[i],
                        #[trigger] config.nodes_ext@[i],
                        i,
                        len_nodes as nat,
                        source_hostname@,
                    ),
            decreases config.nodes_ext.len() - node_idx,
        {
            let node: &TerseExtNodeConfig = &config.nodes_ext[node_idx];
            let node_hostname: String = ConfigParser::parse_config_hostname(
                &node.hostname,
                source_hostname,
            );
            let alt_addresses: StringMap<ParsedConfigNodeAddresses> =
                ConfigParser::parse_alternates(&node.alternate_addresses, node_hostname.as_str());
            let ports: TerseExtNodePorts = match node.services {
                Some(ports) => ports,
                None => TerseExtNodePorts::default(),
            };
            nodes.push(
                ParsedConfigNode {
                    has_data: node_idx < len_nodes,
                    addresses: ConfigParser::parse_config_hosts_into(
                        node_hostname.as_str(),
                        ports,
                    ),
                    alt_addresses,
                },
            );
            node_idx += 1;
        }
        let bucket: Option<ParsedConfigBucket> = match config.name {
            Some(bucket_name) => {
                let bucket_uuid: String = match config.uuid {
                    Some(uuid) => uuid,
                    None => String::new(),
                };
                let by_vbucket: bool = match &config.node_locator {
                    Some(locator) => same_text(locator.as_str(), "vbucket"),
                    None => false,
                };
                let (bucket_type, vbucket_map): (BucketType, Option<VbucketMap>) = if by_vbucket {
                    match ConfigParser::parse_vbucket_server_map(config.vbucket_server_map) {
                        Ok(map) => (BucketType::Couchbase, map),
                        Err(e) => {
                            return Err(e);
                        },
                    }
                } else {
                    (BucketType::Invalid, None)
                };
                let features: Vec<ParsedConfigBucketFeature> = ConfigParser::parse_capabilities(
                    &config.bucket_capabilities,
                );
                Some(
                    ParsedConfigBucket {
                        bucket_uuid,
                        bucket_name,
                        bucket_type,
                        vbucket_map,
                        features,
                    },
                )
            },
            None => None,
        };
        let mut features: Vec<ParsedConfigFeature> = Vec::new();
        if ConfigParser::has_vector_search(&config.cluster_capabilities) {
            features.push(ParsedConfigFeature::FtsVectorSearch);
        }
        let cluster_labels: Option<ClusterLabels> = if config.cluster_name.is_some()
            || config.cluster_uuid.is_some() {
            Some(
                ClusterLabels {
                    cluster_name: config.cluster_name,
                    cluster_uuid: config.cluster_uuid,
                },
            )
        } else {
            None
        };
        Ok(
            ParsedConfig {
                rev_id: config.rev,
                rev_epoch,
                bucket,
                nodes,
                features,
                source_hostname: owned(source_hostname),
                cluster_labels,
            },
        )
    }

    /// The host that a node is dialled at.
    pub fn parse_config_hostname(hostname: &Option<String>, source_hostname: &str) -> (r: String)
        ensures
            r@ == hostname_text(*hostname, source_hostname@),
    {
        match hostname {
            Some(hostname) => {
                if contains(hostname.as_str(), ":") {
                    let mut r: String = owned("[");
                    r.append(hostname.as_str());
                    r.append("]");
                    r
                } else {
                    hostname.clone()
                }
            },
            None => owned(source_hostname),
        }
    }

    /// A host with the ports that its services listen on.
    pub fn parse_config_hosts_into(hostname: &str, ports: TerseExtNodePorts) -> (r:
        ParsedConfigNodeAddresses)
        ensures
            are_hosts(r, hostname@, ports),
    {
        ParsedConfigNodeAddresses {
            hostname: owned(hostname),
            non_ssl_ports: ParsedConfigNodePorts {
                kv: ports.kv,
                mgmt: ports.mgmt,
                analytics: ports.cbas,
                query: ports.n1ql,
                search: ports.fts,
                index_http: ports.gsi,
                index_scan: ports.index_scan,
            },
            ssl_ports: ParsedConfigNodePorts {
                kv: ports.kv_ssl,
                mgmt: ports.mgmt_ssl,
                analytics: ports.cbas_ssl,
                query: ports.n1ql_ssl,
                search: ports.fts_ssl,
                index_http: ports.gsi_ssl,
                index_scan: ports.index_scan,
            },
        }
    }

    fn parse_alternates(
        listed: &StringMap<TerseExtNodeAltAddresses>,
        node_hostname: &str,
    ) -> (r: StringMap<ParsedConfigNodeAddresses>)
        ensures
            are_alternates(r@, listed@, node_hostname@),
    {
        let entries: &Vec<(String, TerseExtNodeAltAddresses)> = listed.entries();
        let mut alt: StringMap<ParsedConfigNodeAddresses> = StringMap::new();
        let mut i: usize = 0;
        proof {
            crate::string_map::lemma_map_of(entries@);
        }
        while i < entries.len()
            invariant
                i <= entries.len(),
                entries@ == listed.listing(),
                forall|k: int|
                    0 <= k < entries@.len() ==> listed@.contains_key((#[trigger] entries@[k]).0@)
                        && listed@[entries@[k].0@] == entries@[k].1,
                forall|network: Seq<char>|
                    #[trigger] alt@.contains_key(network) <==> exists|k: int|
                        0 <= k < i && #[trigger] listed_at(entries@, network, k),
                forall|network: Seq<char>|
                    #[trigger] alt@.contains_key(network) ==> are_hosts(
                        alt@[network],
                        hostname_text(listed@[network].hostname, node_hostname@),
                        listed@[network].ports,
                    ),
            decreases entries.len() - i,
        {
            let listed_here: &TerseExtNodeAltAddresses = &entries[i].1;
            let alt_hostname: String = ConfigParser::parse_config_hostname(
                &listed_here.hostname,
                node_hostname,
            );
            let this_address: ParsedConfigNodeAddresses = ConfigParser::parse_config_hosts_into(
                alt_hostname.as_str(),
                listed_here.ports,
            );
            let ghost before = alt@;
            alt.insert(entries[i].0.clone(), this_address);
            proof {
                let here = entries@[i as int].0@;
                assert(listed_at(entries@, here, i as int));
                assert forall|network: Seq<char>| #[trigger]
                    alt@.contains_key(network) <==> exists|k: int|
                    0 <= k < i + 1 && #[trigger] listed_at(entries@, network, k) by {
                    if before.contains_key(network) {
                        let k = choose|k: int|
                            0 <= k < i && #[trigger] listed_at(entries@, network, k);
                        assert(0 <= k < i + 1 && listed_at(entries@, network, k));
                    }
                    if exists|k: int| 0 <= k < i + 1 && #[trigger] listed_at(entries@, network, k) {
                        let k = choose|k: int|
                            0 <= k < i + 1 && #[trigger] listed_at(entries@, network, k);
                        if k < i {
                            assert(0 <= k < i && listed_at(entries@, network, k));
                            assert(before.contains_key(network));
                        }
                    }
                }
            }
            i += 1;
        }
        proof {
            assert(alt@.dom() =~= listed@.dom()) by {
                assert forall|network: Seq<char>| alt@.dom().contains(network)
                    <==> listed@.dom().contains(network) by {
                    if alt@.contains_key(network) {
                        let k = choose|k: int|
                            0 <= k < entries@.len() && #[trigger] listed_at(entries@, network, k);
                        assert(entries@[k].0@ == network);
                    }
                    if listed@.contains_key(network) {
                        let k = choose|k: int| listed_at(entries@, network, k);
                        assert(0 <= k < entries@.len() && listed_at(entries@, network, k));
                    }
                }
            }
            assert forall|network: Seq<char>| #[trigger]
                listed@.contains_key(network) implies are_hosts(
                alt@[network],
                hostname_text(listed@[network].hostname, node_hostname@),
                listed@[network].ports,
            ) by {
                assert(alt@.dom().contains(network));
                assert(alt@.contains_key(network));
            }
        }
        alt
    }

    /// A bucket's vbucket map. One without vbuckets is refused.
    pub fn parse_vbucket_server_map(vbucket_server_map: Option<VBucketServerMap>) -> (r: Result<
        Option<VbucketMap>,
        Error,
    >)
        ensures
            r is Err <==> (vbucket_server_map matches Some(map) && map.vbucket_map@.len() == 0),
            r matches Err(e) ==> e.spec_kind() == ErrorKind::NoVbucketMap
                && e.spec_retry_info() is None,
            r matches Ok(out) ==> is_parsed_map(out, vbucket_server_map),
    {
        match vbucket_server_map {
            Some(map) => {
                if map.vbucket_map.len() == 0 {
                    return Err(Error::from(ErrorKind::NoVbucketMap));
                }
                Ok(Some(VbucketMap { entries: map.vbucket_map, num_replicas: map.num_replicas }))
            },
            None => Ok(None),
        }
    }

    fn parse_capabilities(caps: &Option<Vec<ParsedConfigBucketFeature>>) -> (r: Vec<
        ParsedConfigBucketFeature,
    >)
        ensures
            r@ == known_features(*caps),
    {
        let mut features: Vec<ParsedConfigBucketFeature> = Vec::new();
        match caps {
            Some(caps) => {
                let mut i: usize = 0;
                proof {
                    reveal(Seq::filter);
                    assert(caps@.take(0) =~= Seq::<ParsedConfigBucketFeature>::empty());
                }
                while i < caps.len()
                    invariant
                        i <= caps.len(),
                        features@ == caps@.take(i as int).filter(
                            |f: ParsedConfigBucketFeature| f != ParsedConfigBucketFeature::Unknown,
                        ),
                    decreases caps.len() - i,
                {
                    proof {
                        reveal(Seq::filter);
                        assert(caps@.take(i + 1).drop_last() =~= caps@.take(i as int));
                    }
                    if caps[i] != ParsedConfigBucketFeature::Unknown {
                        features.push(caps[i]);
                    }
                    i += 1;
                }
                assert(caps@.take(caps@.len() as int) =~= caps@);
            },
            None => {},
        }
        features
    }

    fn has_vector_search(caps: &StringMap<Vec<String>>) -> (r: bool)
        ensures
            r == lists_vector_search(caps@),
    {
        match caps.get("search") {
            Some(names) => {
                let mut i: usize = 0;
                while i < names.len()
                    invariant
                        i <= names.len(),
                        caps@.contains_key("search"@),
                        *names == caps@["search"@],
                        forall|j: int| 0 <= j < i ==> (#[trigger] names@[j])@ != "vectorSearch"@,
                    decreases names.len() - i,
                {
                    if same_text(names[i].as_str(), "vectorSearch") {
                        assert(caps@["search"@]@[i as int]@ == "vectorSearch"@);
                        return true;
                    }
                    i += 1;
                }
                false
            },
            None => false,
        }
    }
}

/// A TLS connection to an indexer goes to the port that scans in the clear go
/// to, on every network: whichever of the two sets is read, the port is the
/// same.
pub proof fn scan_ports_do_not_depend_on_tls(
    out: ParsedConfig,
    config: TerseConfig,
    source: Seq<char>,
    node: int,
)
    requires
        is_parsed(out, config, source),
        0 <= node < out.nodes@.len(),
    ensures
        out.nodes@[node].addresses.ssl_ports.index_scan
            == out.nodes@[node].addresses.non_ssl_ports.index_scan,
        forall|network: Seq<char>|
            #[trigger] out.nodes@[node].alt_addresses@.contains_key(network)
                ==> out.nodes@[node].alt_addresses@[network].ssl_ports.index_scan
                == out.nodes@[node].alt_addresses@[network].non_ssl_ports.index_scan,
{
    let listed = config.nodes_ext@[node];
    assert(is_parsed_node(
        out.nodes@[node],
        listed,
        node,
        match config.nodes {
            Some(nodes) => nodes@.len(),
            None => 0,
        },
        source,
    ));
    assert forall|network: Seq<char>| #[trigger]
        out.nodes@[node].alt_addresses@.contains_key(
        network,
    ) implies out.nodes@[node].alt_addresses@[network].ssl_ports.index_scan
        == out.nodes@[node].alt_addresses@[network].non_ssl_ports.index_scan by {
        assert(out.nodes@[node].alt_addresses@.dom().contains(network));
        assert(listed.alternate_addresses@.contains_key(network));
    }
}

/// A node is reached at the ports that the config lists for it: each service's
/// plain port is the one listed under the service's name, its TLS port the one
/// listed for TLS, and a node without a list has no port at all. The names that
/// the config has for query, analytics, search and the indexer are `n1ql`,
/// `cbas`, `fts` and `gsi`.
pub proof fn a_node_has_the_ports_that_are_listed(
    out: ParsedConfig,
    config: TerseConfig,
    source: Seq<char>,
    node: int,
)
    requires
        is_parsed(out, config, source),
        0 <= node < config.nodes_ext@.len(),
    ensures
        out.nodes@.len() == config.nodes_ext@.len(),
        config.nodes_ext@[node].services matches Some(listed) ==> {
            let at = out.nodes@[node].addresses;
            &&& at.non_ssl_ports.kv == listed.kv
            &&& at.non_ssl_ports.mgmt == listed.mgmt
            &&& at.non_ssl_ports.query == listed.n1ql
            &&& at.non_ssl_ports.analytics == listed.cbas
            &&& at.non_ssl_ports.search == listed.fts
            &&& at.non_ssl_ports.index_http == listed.gsi
            &&& at.non_ssl_ports.index_scan == listed.index_scan
            &&& at.ssl_ports.kv == listed.kv_ssl
            &&& at.ssl_ports.mgmt == listed.mgmt_ssl
            &&& at.ssl_ports.query == listed.n1ql_ssl
            &&& at.ssl_ports.analytics == listed.cbas_ssl
            &&& at.ssl_ports.search == listed.fts_ssl
            &&& at.ssl_ports.index_http == listed.gsi_ssl
            &&& at.ssl_ports.index_scan == listed.index_scan
        },
        config.nodes_ext@[node].services is None ==> {
            let at = out.nodes@[node].addresses;
            &&& at.non_ssl_ports.kv is None && at.ssl_ports.kv is None
            &&& at.non_ssl_ports.mgmt is None && at.ssl_ports.mgmt is None
            &&& at.non_ssl_ports.query is None && at.ssl_ports.query is None
            &&& at.non_ssl_ports.analytics is None && at.ssl_ports.analytics is None
            &&& at.non_ssl_ports.search is None && at.ssl_ports.search is None
            &&& at.non_ssl_ports.index_http is None && at.ssl_ports.index_http is None
            &&& at.non_ssl_ports.index_scan is None && at.ssl_ports.index_scan is None
        },
{
    assert(is_parsed_node(
        out.nodes@[node],
        config.nodes_ext@[node],
        node,
        match config.nodes {
            Some(nodes) => nodes@.len(),
            None => 0,
        },
        source,
    ));
}

/// The same of a node's address on another network: there is one exactly for
/// each network that the config lists, with the ports listed there.
pub proof fn an_alternate_address_has_the_ports_that_are_listed(
    out: ParsedConfig,
    config: TerseConfig,
    source: Seq<char>,
    node: int,
    network: Seq<char>,
)
    requires
        is_parsed(out, config, source),
        0 <= node < config.nodes_ext@.len(),
    ensures
        out.nodes@[node].alt_addresses@.contains_key(network)
            <==> config.nodes_ext@[node].alternate_addresses@.contains_key(network),
        config.nodes_ext@[node].alternate_addresses@.contains_key(network) ==> {
            let listed = config.nodes_ext@[node].alternate_addresses@[network].ports;
            let at = out.nodes@[node].alt_addresses@[network];
            &&& at.non_ssl_ports.kv == listed.kv
            &&& at.non_ssl_ports.mgmt == listed.mgmt
            &&& at.non_ssl_ports.query == listed.n1ql
            &&& at.non_ssl_ports.analytics == listed.cbas
            &&& at.non_ssl_ports.search == listed.fts
            &&& at.non_ssl_ports.index_http == listed.gsi
            &&& at.non_ssl_ports.index_scan == listed.index_scan
            &&& at.ssl_ports.kv == listed.kv_ssl
            &&& at.ssl_ports.mgmt == listed.mgmt_ssl
            &&& at.ssl_ports.query == listed.n1ql_ssl
            &&& at.ssl_ports.analytics == listed.cbas_ssl
            &&& at.ssl_ports.search == listed.fts_ssl
            &&& at.ssl_ports.index_http == listed.gsi_ssl
            &&& at.ssl_ports.index_scan == listed.index_scan
        },
{
    assert(is_parsed_node(
        out.nodes@[node],
        config.nodes_ext@[node],
        node,
        match config.nodes {
            Some(nodes) => nodes@.len(),
            None => 0,
        },
        source,
    ));
    assert(out.nodes@[node].alt_addresses@.dom().contains(network)
        <==> config.nodes_ext@[node].alternate_addresses@.dom().contains(network));
}

/// A node is dialled at the host that the config names for it, in brackets where
/// a colon stands in the name, and at the host that the config came from where
/// it names none. On another network it is the host named there, and the node's
/// own where none is.
pub proof fn a_node_is_dialled_at_the_host_it_is_named(
    out: ParsedConfig,
    config: TerseConfig,
    source: Seq<char>,
    node: int,
    network: Seq<char>,
)
    requires
        is_parsed(out, config, source),
        0 <= node < config.nodes_ext@.len(),
    ensures
        config.nodes_ext@[node].hostname is None ==> out.nodes@[node].addresses.hostname@ == source,
        config.nodes_ext@[node].hostname matches Some(named) ==> {
            let host = out.nodes@[node].addresses.hostname@;
            let colon = exists|i: int| 0 <= i < named@.len() && #[trigger] named@[i] == ':';
            &&& !colon ==> host == named@
            &&& colon ==> host == seq!['['] + named@ + seq![']']
        },
        config.nodes_ext@[node].alternate_addresses@.contains_key(network) ==> {
            let listed = config.nodes_ext@[node].alternate_addresses@[network].hostname;
            let host = out.nodes@[node].alt_addresses@[network].hostname@;
            &&& listed is None ==> host == out.nodes@[node].addresses.hostname@
            &&& listed matches Some(named) ==> {
                let colon = exists|i: int| 0 <= i < named@.len() && #[trigger] named@[i] == ':';
                &&& !colon ==> host == named@
                &&& colon ==> host == seq!['['] + named@ + seq![']']
            }
        },
{
    assert(is_parsed_node(
        out.nodes@[node],
        config.nodes_ext@[node],
        node,
        match config.nodes {
            Some(nodes) => nodes@.len(),
            None => 0,
        },
        source,
    ));
    reveal_strlit(":");
    reveal_strlit("[");
    reveal_strlit("]");
    assert("["@ =~= seq!['[']);
    assert("]"@ =~= seq![']']);
    if let Some(named) = config.nodes_ext@[node].hostname {
        crate::text::a_character_is_contained_where_it_stands(named@, ":"@);
    }
    if config.nodes_ext@[node].alternate_addresses@.contains_key(network) {
        if let Some(named) = config.nodes_ext@[node].alternate_addresses@[network].hostname {
            crate::text::a_character_is_contained_where_it_stands(named@, ":"@);
        }
    }
}

/// The nodes that hold data are the first ones of the config's list, as many as
/// it lists data nodes, and the revision, the source and the labels are the
/// config's own.
pub proof fn a_parsed_config_keeps_what_names_it(
    out: ParsedConfig,
    config: TerseConfig,
    source: Seq<char>,
)
    requires
        is_parsed(out, config, source),
    ensures
        out.rev_id == config.rev,
        config.rev_epoch matches Some(epoch) ==> out.rev_epoch == epoch,
        config.rev_epoch is None ==> out.rev_epoch == 0,
        out.source_hostname@ == source,
        config.nodes matches Some(data) ==> forall|i: int|
            0 <= i < out.nodes@.len() ==> ((#[trigger] out.nodes@[i]).has_data <==> i
                < data@.len()),
        config.nodes is None ==> forall|i: int|
            0 <= i < out.nodes@.len() ==> !(#[trigger] out.nodes@[i]).has_data,
        out.cluster_labels is None <==> config.cluster_name is None && config.cluster_uuid is None,
        out.cluster_labels matches Some(labels) ==> labels.cluster_name == config.cluster_name
            && labels.cluster_uuid == config.cluster_uuid,
        out.features@.contains(ParsedConfigFeature::FtsVectorSearch) <==> (
        config.cluster_capabilities@.contains_key("search"@) && exists|i: int|
            0 <= i < config.cluster_capabilities@["search"@]@.len() && (
            #[trigger] config.cluster_capabilities@["search"@]@[i])@ == "vectorSearch"@),
{
    assert forall|i: int| 0 <= i < out.nodes@.len() implies ((
    #[trigger] out.nodes@[i]).has_data <==> i < (match config.nodes {
        Some(nodes) => nodes@.len(),
        None => 0,
    })) by {
        assert(is_parsed_node(
            out.nodes@[i],
            config.nodes_ext@[i],
            i,
            match config.nodes {
                Some(nodes) => nodes@.len(),
                None => 0,
            },
            source,
        ));
    }
    if lists_vector_search(config.cluster_capabilities@) {
        assert(out.features@[0] == ParsedConfigFeature::FtsVectorSearch);
    }
}

/// A bucket is the one that the config names: its name, its id, its vbucket map
/// row by row where the nodes are located by vbucket, and each capability that
/// is known.
pub proof fn a_parsed_bucket_is_the_one_that_is_named(
    out: ParsedConfig,
    config: TerseConfig,
    source: Seq<char>,
)
    requires
        is_parsed(out, config, source),
    ensures
        out.bucket is Some <==> config.name is Some,
        out.bucket matches Some(bucket) ==> {
            let by_vbucket = config.node_locator is Some && config.node_locator->0@ == "vbucket"@;
            &&& bucket.bucket_name@ == config.name->0@
            &&& config.uuid matches Some(uuid) ==> bucket.bucket_uuid@ == uuid@
            &&& config.uuid is None ==> bucket.bucket_uuid@.len() == 0
            &&& bucket.bucket_type is Couchbase <==> by_vbucket
            &&& bucket.vbucket_map is Some <==> by_vbucket && config.vbucket_server_map is Some
            &&& bucket.vbucket_map matches Some(map) ==> map.entries@
                == config.vbucket_server_map->0.vbucket_map@ && map.num_replicas
                == config.vbucket_server_map->0.num_replicas
            &&& forall|f: ParsedConfigBucketFeature| #[trigger]
                bucket.features@.contains(f) <==> !(f is Unknown) && config.bucket_capabilities
                    is Some && config.bucket_capabilities->0@.contains(f)
        },
{
    if let Some(bucket) = out.bucket {
        let keep = |f: ParsedConfigBucketFeature| f != ParsedConfigBucketFeature::Unknown;
        if let Some(caps) = config.bucket_capabilities {
            assert forall|f: ParsedConfigBucketFeature| #[trigger]
                bucket.features@.contains(f) <==> !(f is Unknown) && caps@.contains(f) by {
                if caps@.contains(f) && keep(f) {
                    let i = choose|i: int| 0 <= i < caps@.len() && caps@[i] == f;
                    caps@.lemma_filter_contains(keep, i);
                }
                if bucket.features@.contains(f) {
                    let i = choose|i: int|
                        0 <= i < bucket.features@.len() && bucket.features@[i] == f;
                    caps@.lemma_filter_pred(keep, i);
                    caps@.lemma_filter_contains_rev(keep, f);
                }
            }
        }
    }
}

/// A config is refused for its map exactly where it names a bucket whose nodes
/// are located by vbucket and lists no vbucket for it. One without a bucket,
/// with another locator or without a map at all is not.
pub proof fn a_config_is_refused_only_for_an_empty_map(config: TerseConfig)
    ensures
        has_empty_map(config) <==> config.name is Some && config.node_locator is Some
            && config.node_locator->0@ == "vbucket"@ && config.vbucket_server_map is Some
            && config.vbucket_server_map->0.vbucket_map@.len() == 0,
{
}

/// The capabilities that are known keep the order in which the config lists
/// them, and each is kept as often as it is listed.
pub proof fn known_capabilities_keep_their_order(
    front: Seq<ParsedConfigBucketFeature>,
    feature: ParsedConfigBucketFeature,
    all: Vec<ParsedConfigBucketFeature>,
    before: Vec<ParsedConfigBucketFeature>,
)
    requires
        before@ == front,
        all@ == front.push(feature),
    ensures
        known_features(None).len() == 0,
        feature is Unknown ==> known_features(Some(all)) == known_features(Some(before)),
        !(feature is Unknown) ==> known_features(Some(all)) == known_features(Some(before)).push(
            feature,
        ),
{
    reveal(Seq::filter);
    assert(all@.drop_last() =~= front);
}

} // verus!
