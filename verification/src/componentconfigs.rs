//! What each component of an agent is told of the cluster, all of it taken
//! from one config.
use vstd::prelude::*;
use vstd::string::*;
use crate::address::Address;
use crate::authenticator::{Authenticator, TlsConfig};
use crate::error::copied_text;
use crate::indexrouter::{config_map_of, dial_of, Dial, NodeMap};
use crate::parsedconfig::{
    a_network_reaches_the_nodes_that_list_it, is_network, is_node_at, node_id_text, reached_at,
    reached_nodes, ClusterLabels, NetworkConfig,
    NetworkConfigNode, ParsedConfig, ParsedConfigFeature, ParsedConfigNode, ParsedConfigNodePorts,
    VbucketMap,
};
use crate::service_type::ServiceType;
use crate::string_map::StringMap;
use crate::text::{decimal, owned, push_decimal};

verus! {

/// A key-value node: where to dial it, and what the cluster knows it as.
#[derive(Debug, PartialEq, Eq)]
pub struct KvTarget {
    pub address: Address,
    pub tls_config: Option<TlsConfig>,
    pub canonical_address: Address,
}

impl Clone for KvTarget {
    fn clone(&self) -> (r: KvTarget)
        ensures
            r == *self,
    {
        KvTarget {
            address: self.address.clone(),
            tls_config: self.tls_config,
            canonical_address: self.canonical_address.clone(),
        }
    }
}

/// A target, apart from how it is stored.
pub struct KvTargetView {
    pub address: Dial,
    pub tls_config: Option<TlsConfig>,
    pub canonical_address: Dial,
}

impl View for KvTarget {
    type V = KvTargetView;

    open spec fn view(&self) -> KvTargetView {
        KvTargetView {
            address: dial_of(self.address),
            tls_config: self.tls_config,
            canonical_address: dial_of(self.canonical_address),
        }
    }
}

/// A service's URL on the network in use, and the one the cluster knows.
#[derive(Debug, Clone, PartialEq, Eq)]
pub struct NetworkAndCanonicalEndpoint {
    pub network_endpoint: String,
    pub canonical_endpoint: String,
}

pub struct EndpointView {
    pub network_endpoint: Seq<char>,
    pub canonical_endpoint: Seq<char>,
}

impl View for NetworkAndCanonicalEndpoint {
    type V = EndpointView;

    open spec fn view(&self) -> EndpointView {
        EndpointView {
            network_endpoint: self.network_endpoint@,
            canonical_endpoint: self.canonical_endpoint@,
        }
    }
}

pub struct ConfigManagerMemdConfig {
    pub endpoints: Vec<String>,
}

pub struct VbucketRoutingInfo {
    pub vbucket_info: Option<VbucketMap>,
    pub server_list: Vec<String>,
    pub bucket_selected: bool,
}

pub struct AnalyticsComponentConfig {
    pub endpoints: StringMap<NetworkAndCanonicalEndpoint>,
    pub authenticator: Authenticator,
}

pub struct QueryComponentConfig {
    pub endpoints: StringMap<NetworkAndCanonicalEndpoint>,
    pub authenticator: Authenticator,
}

pub struct SearchComponentConfig {
    pub endpoints: StringMap<NetworkAndCanonicalEndpoint>,
    pub authenticator: Authenticator,
    pub vector_search_enabled: bool,
}

pub struct MgmtComponentConfig {
    pub endpoints: StringMap<NetworkAndCanonicalEndpoint>,
    pub authenticator: Authenticator,
}

pub struct IndexComponentConfig {
    pub endpoints: StringMap<NetworkAndCanonicalEndpoint>,
    pub nodes: NodeMap,
    pub authenticator: Authenticator,
    pub tls_config: Option<TlsConfig>,
}

pub struct DiagnosticsComponentConfig {
    pub bucket: Option<String>,
    pub services: Vec<ServiceType>,
    pub rev_id: i64,
}

pub struct TracingComponentConfig {
    pub cluster_labels: Option<ClusterLabels>,
}

pub struct AgentComponentConfigs {
    pub kv_targets: StringMap<KvTarget>,
    pub auth: Authenticator,
    pub selected_bucket: Option<String>,
    pub config_manager_memd_config: ConfigManagerMemdConfig,
    pub vbucket_routing_info: VbucketRoutingInfo,
    pub analytics_config: AnalyticsComponentConfig,
    pub query_config: QueryComponentConfig,
    pub search_config: SearchComponentConfig,
    pub mgmt_config: MgmtComponentConfig,
    pub index_config: IndexComponentConfig,
    pub diagnostics_config: DiagnosticsComponentConfig,
    pub tracing_config: TracingComponentConfig,
}

/// What is known of a node that a network reaches.
pub struct NodeFacts {
    pub id: Seq<char>,
    pub host: Seq<char>,
    pub has_data: bool,
    pub plain: ParsedConfigNodePorts,
    pub tls: ParsedConfigNodePorts,
    pub canonical_host: Seq<char>,
    pub canonical_plain: ParsedConfigNodePorts,
    pub canonical_tls: ParsedConfigNodePorts,
}

/// A node of a config, reached over a network.
pub open spec fn facts_of(node: ParsedConfigNode, network_type: Seq<char>) -> NodeFacts {
    let at = reached_at(node, network_type)->0;
    NodeFacts {
        id: node_id_text(node.addresses),
        host: at.hostname@,
        has_data: node.has_data,
        plain: at.non_ssl_ports,
        tls: at.ssl_ports,
        canonical_host: node.addresses.hostname@,
        canonical_plain: node.addresses.non_ssl_ports,
        canonical_tls: node.addresses.ssl_ports,
    }
}

/// The nodes that a network reaches.
pub open spec fn network_facts(nodes: Seq<ParsedConfigNode>, network_type: Seq<char>) -> Seq<
    NodeFacts,
> {
    reached_nodes(nodes, network_type).map_values(
        |node: ParsedConfigNode| facts_of(node, network_type),
    )
}

spec fn facts_here(node: NetworkConfigNode) -> NodeFacts {
    NodeFacts {
        id: node.node_id@,
        host: node.hostname@,
        has_data: node.has_data,
        plain: node.non_ssl_ports,
        tls: node.ssl_ports,
        canonical_host: node.canonical_node_info.hostname@,
        canonical_plain: node.canonical_node_info.non_ssl_ports,
        canonical_tls: node.canonical_node_info.ssl_ports,
    }
}

/// The services that are reached over HTTP.
pub enum HttpService {
    Mgmt,
    Analytics,
    Query,
    Search,
    Index,
}

/// What the ids of a service's endpoints begin with.
pub open spec fn id_prefix(service: HttpService) -> Seq<char> {
    match service {
        HttpService::Mgmt => "mgmt"@,
        HttpService::Analytics => "analytics"@,
        HttpService::Query => "query"@,
        HttpService::Search => "search"@,
        HttpService::Index => "index"@,
    }
}

pub open spec fn port_of(ports: ParsedConfigNodePorts, service: HttpService) -> Option<u16> {
    match service {
        HttpService::Mgmt => ports.mgmt,
        HttpService::Analytics => ports.analytics,
        HttpService::Query => ports.query,
        HttpService::Search => ports.search,
        HttpService::Index => ports.index_http,
    }
}

pub open spec fn url(tls: bool, host: Seq<char>, port: u16) -> Seq<char> {
    (if tls {
        "https://"@
    } else {
        "http://"@
    }) + host + ":"@ + decimal(port as nat)
}

pub open spec fn or_else(port: Option<u16>, other: u16) -> u16 {
    match port {
        Some(p) => p,
        None => other,
    }
}

/// The endpoint that a node offers a service at, where it has the port: over
/// TLS the TLS port, else the plain one. The canonical port is that of the same
/// set, or where there is none the one in use.
pub open spec fn endpoint_at(node: NodeFacts, service: HttpService, tls: bool) -> Option<
    EndpointView,
> {
    let ports = if tls {
        node.tls
    } else {
        node.plain
    };
    let canonical = if tls {
        node.canonical_tls
    } else {
        node.canonical_plain
    };
    match port_of(ports, service) {
        Some(p) => Some(
            EndpointView {
                network_endpoint: url(tls, node.host, p),
                canonical_endpoint: url(
                    tls,
                    node.canonical_host,
                    or_else(port_of(canonical, service), p),
                ),
            },
        ),
        None => None,
    }
}

/// The endpoints of a service, by their ids. A node that does not run it has
/// none.
pub open spec fn endpoints_of(nodes: Seq<NodeFacts>, service: HttpService, tls: bool) -> Map<
    Seq<char>,
    EndpointView,
>
    decreases nodes.len(),
{
    if nodes.len() == 0 {
        Map::empty()
    } else {
        let before = endpoints_of(nodes.drop_last(), service, tls);
        match endpoint_at(nodes.last(), service, tls) {
            Some(e) => before.insert(id_prefix(service) + nodes.last().id, e),
            None => before,
        }
    }
}

/// The key-value nodes, by their ids.
pub open spec fn targets_of(nodes: Seq<NodeFacts>, tls: Option<TlsConfig>) -> Map<
    Seq<char>,
    KvTargetView,
>
    decreases nodes.len(),
{
    if nodes.len() == 0 {
        Map::empty()
    } else {
        let before = targets_of(nodes.drop_last(), tls);
        let node = nodes.last();
        let port = if tls is Some {
            node.tls.kv
        } else {
            node.plain.kv
        };
        let canonical = if tls is Some {
            node.canonical_tls.kv
        } else {
            node.canonical_plain.kv
        };
        match port {
            Some(p) => before.insert(
                "kv"@ + node.id,
                KvTargetView {
                    address: Dial { host: node.host, port: p },
                    tls_config: tls,
                    canonical_address: Dial {
                        host: node.canonical_host,
                        port: or_else(canonical, p),
                    },
                },
            ),
            None => before,
        }
    }
}

/// The ids of all nodes as key-value endpoints, in their order.
pub open spec fn kv_ids(nodes: Seq<NodeFacts>) -> Seq<Seq<char>> {
    nodes.map_values(|n: NodeFacts| "kv"@ + n.id)
}

/// The same of the nodes that hold data alone.
pub open spec fn data_ids(nodes: Seq<NodeFacts>) -> Seq<Seq<char>> {
    kv_ids(nodes.filter(|n: NodeFacts| n.has_data))
}

pub open spec fn texts(v: Seq<String>) -> Seq<Seq<char>> {
    v.map_values(|s: String| s@)
}

pub open spec fn endpoint_views(m: StringMap<NetworkAndCanonicalEndpoint>) -> Map<
    Seq<char>,
    EndpointView,
> {
    m@.map_values(|e: NetworkAndCanonicalEndpoint| e@)
}

/// The services that can be diagnosed: key-value always, query and search
/// where an endpoint of theirs is known.
pub open spec fn diagnosed(query: bool, search: bool) -> Seq<ServiceType> {
    if query && search {
        seq![ServiceType::MEMD, ServiceType::QUERY, ServiceType::SEARCH]
    } else if query {
        seq![ServiceType::MEMD, ServiceType::QUERY]
    } else if search {
        seq![ServiceType::MEMD, ServiceType::SEARCH]
    } else {
        seq![ServiceType::MEMD]
    }
}

fn http_url(tls: bool, host: &str, port: u16) -> (r: String)
    ensures
        r@ == url(tls, host@, port),
{
    let mut r: String = if tls {
        owned("https://")
    } else {
        owned("http://")
    };
    r.append(host);
    r.append(":");
    push_decimal(&mut r, port as u64);
    r
}

fn add_endpoint(
    endpoints: &mut StringMap<NetworkAndCanonicalEndpoint>,
    prefix: &str,
    node: &NetworkConfigNode,
    tls: bool,
    port: Option<u16>,
    canonical: Option<u16>,
    Ghost(service): Ghost<HttpService>,
)
    requires
        prefix@ == id_prefix(service),
        port == port_of(
            if tls {
                node.ssl_ports
            } else {
                node.non_ssl_ports
            },
            service,
        ),
        canonical == port_of(
            if tls {
                node.canonical_node_info.ssl_ports
            } else {
                node.canonical_node_info.non_ssl_ports
            },
            service,
        ),
    ensures
        endpoint_views(*final(endpoints)) == (match endpoint_at(facts_here(*node), service, tls) {
            Some(e) => endpoint_views(*old(endpoints)).insert(prefix@ + node.node_id@, e),
            None => endpoint_views(*old(endpoints)),
        }),
{
    match port {
        Some(p) => {
            let id: String = owned(prefix).concat(node.node_id.as_str());
            let canonical_port: u16 = match canonical {
                Some(c) => c,
                None => p,
            };
            let e: NetworkAndCanonicalEndpoint = NetworkAndCanonicalEndpoint {
                network_endpoint: http_url(tls, node.hostname.as_str(), p),
                canonical_endpoint: http_url(
                    tls,
                    node.canonical_node_info.hostname.as_str(),
                    canonical_port,
                ),
            };
            let ghost before = endpoints@;
            endpoints.insert(id, e);
            assert(endpoint_views(*endpoints) =~= before.map_values(
                |e: NetworkAndCanonicalEndpoint| e@,
            ).insert(id@, e@));
        },
        None => {},
    }
}

proof fn lemma_facts(
    out: Seq<NetworkConfigNode>,
    nodes: Seq<ParsedConfigNode>,
    network_type: Seq<char>,
)
    requires
        is_network(out, nodes, network_type),
    ensures
        out.map_values(|n: NetworkConfigNode| facts_here(n)) == network_facts(nodes, network_type),
{
    let reached = reached_nodes(nodes, network_type);
    assert forall|i: int| 0 <= i < out.len() implies facts_here(#[trigger] out[i]) == facts_of(
        reached[i],
        network_type,
    ) by {
        assert(is_node_at(out[i], reached[i], reached_at(reached[i], network_type)->0));
    }
    assert(out.map_values(|n: NetworkConfigNode| facts_here(n)) =~= network_facts(
        nodes,
        network_type,
    ));
}

/// Whether `r` is what each component is told, from one config as it is seen
/// over one network.
pub open spec fn is_generated(
    r: AgentComponentConfigs,
    config: ParsedConfig,
    network_type: Seq<char>,
    tls_config: Option<TlsConfig>,
    bucket_name: Option<String>,
    authenticator: Authenticator,
) -> bool {
    let nodes = network_facts(config.nodes@, network_type);
    let tls = tls_config is Some;
    &&& r.kv_targets@.map_values(|t: KvTarget| t@) == targets_of(nodes, tls_config)
    &&& r.auth == authenticator
    &&& r.selected_bucket == bucket_name
    &&& texts(r.config_manager_memd_config.endpoints@) == kv_ids(nodes)
    &&& texts(r.vbucket_routing_info.server_list@) == data_ids(nodes)
    &&& r.vbucket_routing_info.bucket_selected == (config.bucket is Some)
    &&& match (match config.bucket {
        Some(bucket) => bucket.vbucket_map,
        None => None,
    }) {
        Some(map) => r.vbucket_routing_info.vbucket_info matches Some(info)
            && info.rows() == map.rows() && info.num_replicas == map.num_replicas,
        None => r.vbucket_routing_info.vbucket_info is None,
    }
    &&& endpoint_views(r.analytics_config.endpoints) == endpoints_of(
        nodes,
        HttpService::Analytics,
        tls,
    )
    &&& r.analytics_config.authenticator == authenticator
    &&& endpoint_views(r.query_config.endpoints) == endpoints_of(
        nodes,
        HttpService::Query,
        tls,
    )
    &&& r.query_config.authenticator == authenticator
    &&& endpoint_views(r.search_config.endpoints) == endpoints_of(
        nodes,
        HttpService::Search,
        tls,
    )
    &&& r.search_config.authenticator == authenticator
    &&& r.search_config.vector_search_enabled == config.features@.contains(
        ParsedConfigFeature::FtsVectorSearch,
    )
    &&& endpoint_views(r.mgmt_config.endpoints) == endpoints_of(
        nodes,
        HttpService::Mgmt,
        tls,
    )
    &&& r.mgmt_config.authenticator == authenticator
    &&& endpoint_views(r.index_config.endpoints) == endpoints_of(
        nodes,
        HttpService::Index,
        tls,
    )
    &&& r.index_config.authenticator == authenticator
    &&& r.index_config.tls_config == tls_config
    &&& r.index_config.nodes@ == config_map_of(
        reached_nodes(config.nodes@, network_type),
        network_type,
    )
    &&& r.diagnostics_config.bucket == bucket_name
    &&& r.diagnostics_config.rev_id == config.rev_id
    &&& r.diagnostics_config.services@ == diagnosed(
        endpoints_of(nodes, HttpService::Query, tls).dom().len() > 0,
        endpoints_of(nodes, HttpService::Search, tls).dom().len() > 0,
    )
    &&& r.tracing_config.cluster_labels == config.cluster_labels
}

impl AgentComponentConfigs {
    /// What each component is told, from one config as it is seen over one
    /// network.
    pub fn gen_from_config(
        config: &ParsedConfig,
        network_type: &str,
        tls_config: Option<TlsConfig>,
        bucket_name: Option<String>,
        authenticator: Authenticator,
    ) -> (r: AgentComponentConfigs)
        ensures
            is_generated(
                r,
                *config,
                network_type@,
                tls_config,
                bucket_name,
                authenticator,
            ),
    {
        let tls: bool = tls_config.is_some();
        let network: NetworkConfig = config.addresses_group_for_network_type(network_type);
        let ghost all = network.nodes@.map_values(|n: NetworkConfigNode| facts_here(n));
        proof {
            lemma_facts(network.nodes@, config.nodes@, network_type@);
        }
        let mut gcccp_node_ids: Vec<String> = Vec::new();
        let mut kv_data_node_ids: Vec<String> = Vec::new();
        let mut kv_targets: StringMap<KvTarget> = StringMap::new();
        let mut mgmt: StringMap<NetworkAndCanonicalEndpoint> = StringMap::new();
        let mut analytics: StringMap<NetworkAndCanonicalEndpoint> = StringMap::new();
        let mut query: StringMap<NetworkAndCanonicalEndpoint> = StringMap::new();
        let mut search: StringMap<NetworkAndCanonicalEndpoint> = StringMap::new();
        let mut index: StringMap<NetworkAndCanonicalEndpoint> = StringMap::new();
        let mut i: usize = 0;
        proof {
            reveal(Seq::filter);
            assert(all.take(0) =~= Seq::<NodeFacts>::empty());
            assert(texts(gcccp_node_ids@) =~= kv_ids(all.take(0)));
            assert(texts(kv_data_node_ids@) =~= data_ids(all.take(0)));
            assert(kv_targets@.map_values(|t: KvTarget| t@) =~= Map::<
                Seq<char>,
                KvTargetView,
            >::empty());
            assert(endpoint_views(mgmt) =~= Map::<Seq<char>, EndpointView>::empty());
            assert(endpoint_views(analytics) =~= Map::<Seq<char>, EndpointView>::empty());
            assert(endpoint_views(query) =~= Map::<Seq<char>, EndpointView>::empty());
            assert(endpoint_views(search) =~= Map::<Seq<char>, EndpointView>::empty());
            assert(endpoint_views(index) =~= Map::<Seq<char>, EndpointView>::empty());
        }
        while i < network.nodes.len()
            invariant
                i <= network.nodes.len(),
                tls == (tls_config is Some),
                all == network.nodes@.map_values(|n: NetworkConfigNode| facts_here(n)),
                texts(gcccp_node_ids@) == kv_ids(all.take(i as int)),
                texts(kv_data_node_ids@) == data_ids(all.take(i as int)),
                kv_targets@.map_values(|t: KvTarget| t@) == targets_of(
                    all.take(i as int),
                    tls_config,
                ),
                endpoint_views(mgmt) == endpoints_of(all.take(i as int), HttpService::Mgmt, tls),
                endpoint_views(analytics) == endpoints_of(
                    all.take(i as int),
                    HttpService::Analytics,
                    tls,
                ),
                endpoint_views(query) == endpoints_of(all.take(i as int), HttpService::Query, tls),
                endpoint_views(search) == endpoints_of(
                    all.take(i as int),
                    HttpService::Search,
                    tls,
                ),
                endpoint_views(index) == endpoints_of(all.take(i as int), HttpService::Index, tls),
            decreases network.nodes.len() - i,
        {
            let node: &NetworkConfigNode = &network.nodes[i];
            let ports: ParsedConfigNodePorts = if tls {
                node.ssl_ports
            } else {
                node.non_ssl_ports
            };
            let canonical: ParsedConfigNodePorts = if tls {
                node.canonical_node_info.ssl_ports
            } else {
                node.canonical_node_info.non_ssl_ports
            };
            proof {
                assert(all.take(i + 1).drop_last() =~= all.take(i as int));
                assert(all.take(i + 1).last() == facts_here(*node));
            }
            let kv_ep_id: String = owned("kv").concat(node.node_id.as_str());
            let ghost ids = gcccp_node_ids@;
            gcccp_node_ids.push(kv_ep_id.clone());
            proof {
                assert(texts(gcccp_node_ids@) =~= texts(ids).push(kv_ep_id@));
                assert(all.take(i + 1) =~= all.take(i as int).push(facts_here(*node)));
                assert(kv_ids(all.take(i + 1)) =~= kv_ids(all.take(i as int)).push(kv_ep_id@));
            }
            let ghost data = kv_data_node_ids@;
            if node.has_data {
                kv_data_node_ids.push(kv_ep_id.clone());
            }
            proof {
                reveal(Seq::filter);
                let kept = all.take(i as int).filter(|n: NodeFacts| n.has_data);
                if node.has_data {
                    assert(all.take(i + 1).filter(|n: NodeFacts| n.has_data) =~= kept.push(
                        facts_here(*node),
                    ));
                    assert(texts(kv_data_node_ids@) =~= texts(data).push(kv_ep_id@));
                    assert(kv_ids(kept.push(facts_here(*node))) =~= kv_ids(kept).push(kv_ep_id@));
                }
            }
            match ports.kv {
                Some(p) => {
                    let canonical_port: u16 = match canonical.kv {
                        Some(c) => c,
                        None => p,
                    };
                    let target: KvTarget = KvTarget {
                        address: Address { host: node.hostname.clone(), port: p },
                        tls_config,
                        canonical_address: Address {
                            host: node.canonical_node_info.hostname.clone(),
                            port: canonical_port,
                        },
                    };
                    let ghost before = kv_targets@;
                    kv_targets.insert(kv_ep_id, target);
                    assert(kv_targets@.map_values(|t: KvTarget| t@) =~= before.map_values(
                        |t: KvTarget| t@,
                    ).insert(kv_ep_id@, target@));
                },
                None => {},
            }
            add_endpoint(
                &mut mgmt,
                "mgmt",
                node,
                tls,
                ports.mgmt,
                canonical.mgmt,
                Ghost(HttpService::Mgmt),
            );
            add_endpoint(
                &mut analytics,
                "analytics",
                node,
                tls,
                ports.analytics,
                canonical.analytics,
                Ghost(HttpService::Analytics),
            );
            add_endpoint(
                &mut query,
                "query",
                node,
                tls,
                ports.query,
                canonical.query,
                Ghost(HttpService::Query),
            );
            add_endpoint(
                &mut search,
                "search",
                node,
                tls,
                ports.search,
                canonical.search,
                Ghost(HttpService::Search),
            );
            add_endpoint(
                &mut index,
                "index",
                node,
                tls,
                ports.index_http,
                canonical.index_http,
                Ghost(HttpService::Index),
            );
            i += 1;
        }
        assert(all.take(all.len() as int) =~= all);
        let vbucket_routing_info: VbucketRoutingInfo = match &config.bucket {
            Some(info) => VbucketRoutingInfo {
                vbucket_info: match &info.vbucket_map {
                    Some(map) => Some(map.clone()),
                    None => None,
                },
                server_list: kv_data_node_ids,
                bucket_selected: true,
            },
            None => VbucketRoutingInfo {
                vbucket_info: None,
                server_list: kv_data_node_ids,
                bucket_selected: false,
            },
        };
        let mut services: Vec<ServiceType> = Vec::new();
        services.push(ServiceType::MEMD);
        let has_query: bool = query.len() > 0;
        let has_search: bool = search.len() > 0;
        proof {
            assert(endpoint_views(query).dom() =~= query@.dom());
            assert(endpoint_views(search).dom() =~= search@.dom());
        }
        if has_query {
            services.push(ServiceType::QUERY);
        }
        if has_search {
            services.push(ServiceType::SEARCH);
        }
        assert(services@ =~= diagnosed(has_query, has_search));
        let cluster_labels: Option<ClusterLabels> = match &config.cluster_labels {
            Some(labels) => Some(
                ClusterLabels {
                    cluster_uuid: copied_text(&labels.cluster_uuid),
                    cluster_name: copied_text(&labels.cluster_name),
                },
            ),
            None => None,
        };
        AgentComponentConfigs {
            kv_targets,
            auth: authenticator.clone(),
            selected_bucket: copied_text(&bucket_name),
            config_manager_memd_config: ConfigManagerMemdConfig { endpoints: gcccp_node_ids },
            vbucket_routing_info,
            analytics_config: AnalyticsComponentConfig {
                endpoints: analytics,
                authenticator: authenticator.clone(),
            },
            query_config: QueryComponentConfig {
                endpoints: query,
                authenticator: authenticator.clone(),
            },
            search_config: SearchComponentConfig {
                endpoints: search,
                authenticator: authenticator.clone(),
                vector_search_enabled: has_feature(&config.features),
            },
            mgmt_config: MgmtComponentConfig {
                endpoints: mgmt,
                authenticator: authenticator.clone(),
            },
            index_config: IndexComponentConfig {
                endpoints: index,
                nodes: NodeMap::from_config(config, network_type),
                authenticator: authenticator.clone(),
                tls_config,
            },
            diagnostics_config: DiagnosticsComponentConfig {
                bucket: bucket_name,
                services,
                rev_id: config.rev_id,
            },
            tracing_config: TracingComponentConfig { cluster_labels },
        }
    }
}

fn has_feature(features: &Vec<ParsedConfigFeature>) -> (r: bool)
    ensures
        r == features@.contains(ParsedConfigFeature::FtsVectorSearch),
{
    let mut i: usize = 0;
    while i < features.len()
        invariant
            i <= features.len(),
            forall|j: int| 0 <= j < i ==> features@[j] != ParsedConfigFeature::FtsVectorSearch,
        decreases features.len() - i,
    {
        if features[i] == ParsedConfigFeature::FtsVectorSearch {
            assert(features@[i as int] == ParsedConfigFeature::FtsVectorSearch);
            return true;
        }
        i += 1;
    }
    false
}

proof fn lemma_targets(nodes: Seq<NodeFacts>, tls: Option<TlsConfig>)
    ensures
        forall|j: int|
            0 <= j < nodes.len() && (if tls is Some {
                (#[trigger] nodes[j]).tls.kv
            } else {
                nodes[j].plain.kv
            }) is Some ==> targets_of(nodes, tls).contains_key("kv"@ + nodes[j].id),
        forall|key: Seq<char>| #[trigger]
            targets_of(nodes, tls).contains_key(key) ==> exists|j: int|
                0 <= j < nodes.len() && key == "kv"@ + (#[trigger] nodes[j]).id && ({
                    let target = targets_of(nodes, tls)[key];
                    let port = if tls is Some {
                        nodes[j].tls.kv
                    } else {
                        nodes[j].plain.kv
                    };
                    let canonical = if tls is Some {
                        nodes[j].canonical_tls.kv
                    } else {
                        nodes[j].canonical_plain.kv
                    };
                    &&& port == Some(target.address.port)
                    &&& target.address.host == nodes[j].host
                    &&& target.tls_config == tls
                    &&& target.canonical_address.host == nodes[j].canonical_host
                    &&& canonical is Some ==> canonical == Some(target.canonical_address.port)
                    &&& canonical is None ==> target.canonical_address.port == target.address.port
                }),
    decreases nodes.len(),
{
    if nodes.len() > 0 {
        let front = nodes.drop_last();
        let last = nodes.len() - 1;
        lemma_targets(front, tls);
        assert forall|j: int|
            0 <= j < nodes.len() && (if tls is Some {
                (#[trigger] nodes[j]).tls.kv
            } else {
                nodes[j].plain.kv
            }) is Some implies targets_of(nodes, tls).contains_key("kv"@ + nodes[j].id) by {
            if j < last {
                assert(front[j] == nodes[j]);
            }
        }
        assert forall|key: Seq<char>| #[trigger]
            targets_of(nodes, tls).contains_key(key) implies exists|j: int|
            0 <= j < nodes.len() && key == "kv"@ + (#[trigger] nodes[j]).id && ({
                let target = targets_of(nodes, tls)[key];
                let port = if tls is Some {
                    nodes[j].tls.kv
                } else {
                    nodes[j].plain.kv
                };
                let canonical = if tls is Some {
                    nodes[j].canonical_tls.kv
                } else {
                    nodes[j].canonical_plain.kv
                };
                &&& port == Some(target.address.port)
                &&& target.address.host == nodes[j].host
                &&& target.tls_config == tls
                &&& target.canonical_address.host == nodes[j].canonical_host
                &&& canonical is Some ==> canonical == Some(target.canonical_address.port)
                &&& canonical is None ==> target.canonical_address.port == target.address.port
            }) by {
            let port = if tls is Some {
                nodes[last].tls.kv
            } else {
                nodes[last].plain.kv
            };
            if port is Some && key == "kv"@ + nodes[last].id {
                assert(nodes[last].id == nodes.last().id);
            } else {
                assert(targets_of(front, tls).contains_key(key));
                let j = choose|j: int|
                    0 <= j < front.len() && key == "kv"@ + (#[trigger] front[j]).id && ({
                        let target = targets_of(front, tls)[key];
                        let port = if tls is Some {
                            front[j].tls.kv
                        } else {
                            front[j].plain.kv
                        };
                        let canonical = if tls is Some {
                            front[j].canonical_tls.kv
                        } else {
                            front[j].canonical_plain.kv
                        };
                        &&& port == Some(target.address.port)
                        &&& target.address.host == front[j].host
                        &&& target.tls_config == tls
                        &&& target.canonical_address.host == front[j].canonical_host
                        &&& canonical is Some ==> canonical == Some(target.canonical_address.port)
                        &&& canonical is None ==> target.canonical_address.port
                            == target.address.port
                    });
                assert(front[j] == nodes[j]);
            }
        }
    }
}

/// The node of the config that a fact is about, and the other way round.
proof fn lemma_facts_of_nodes(nodes: Seq<ParsedConfigNode>, network_type: Seq<char>)
    ensures
        forall|j: int|
            0 <= j < network_facts(nodes, network_type).len() ==> exists|i: int|
                0 <= i < nodes.len() && facts_of(#[trigger] nodes[i], network_type)
                    == #[trigger] network_facts(nodes, network_type)[j] && (network_type
                    == "default"@ || nodes[i].alt_addresses@.contains_key(network_type)),
        forall|i: int|
            0 <= i < nodes.len() && (network_type == "default"@ || (
            #[trigger] nodes[i]).alt_addresses@.contains_key(network_type)) ==> exists|j: int|
                0 <= j < network_facts(nodes, network_type).len()
                    && #[trigger] network_facts(nodes, network_type)[j] == facts_of(
                    nodes[i],
                    network_type,
                ),
{
    let reached = reached_nodes(nodes, network_type);
    let facts = network_facts(nodes, network_type);
    assert forall|j: int| 0 <= j < facts.len() implies exists|i: int|
        0 <= i < nodes.len() && facts_of(#[trigger] nodes[i], network_type)
            == #[trigger] facts[j] && (network_type == "default"@
            || nodes[i].alt_addresses@.contains_key(network_type)) by {
        let node = reached[j];
        assert(reached.contains(node));
        a_network_reaches_the_nodes_that_list_it(nodes, network_type, node);
        assert(nodes.contains(node));
        let i = choose|i: int| 0 <= i < nodes.len() && nodes[i] == node;
        assert(facts_of(nodes[i], network_type) == facts[j]);
    }
    assert forall|i: int|
        0 <= i < nodes.len() && (network_type == "default"@ || (
        #[trigger] nodes[i]).alt_addresses@.contains_key(network_type)) implies exists|j: int|
        0 <= j < facts.len() && #[trigger] facts[j] == facts_of(nodes[i], network_type) by {
        let node = nodes[i];
        assert(nodes.contains(node));
        a_network_reaches_the_nodes_that_list_it(nodes, network_type, node);
        assert(reached.contains(node));
        let j = choose|j: int| 0 <= j < reached.len() && reached[j] == node;
        assert(facts[j] == facts_of(nodes[i], network_type));
    }
}

proof fn lemma_default_facts(nodes: Seq<ParsedConfigNode>)
    ensures
        network_facts(nodes, "default"@) == nodes.map_values(
            |node: ParsedConfigNode| facts_of(node, "default"@),
        ),
{
    if nodes.len() > 0 {
        a_network_reaches_the_nodes_that_list_it(nodes, "default"@, nodes[0]);
    } else {
        assert(reached_nodes(nodes, "default"@) =~= nodes) by {
            reveal(Seq::filter);
        }
    }
}

/// With a TLS config every key-value node is dialled at its TLS port, and
/// without one at its plain port, at the host that the network in use has for
/// it. A node has a target exactly where it has that port. The address that the
/// cluster knows a node by has the port of the same set, and where there is none
/// the one that is dialled.
pub proof fn a_key_value_node_is_dialled_at_the_port_in_use(
    r: AgentComponentConfigs,
    config: ParsedConfig,
    network_type: Seq<char>,
    tls_config: Option<TlsConfig>,
    bucket_name: Option<String>,
    authenticator: Authenticator,
)
    requires
        is_generated(r, config, network_type, tls_config, bucket_name, authenticator),
    ensures
        forall|i: int|
            0 <= i < config.nodes@.len() && (network_type == "default"@ || (
            #[trigger] config.nodes@[i]).alt_addresses@.contains_key(network_type)) && ({
                let at = if network_type == "default"@ {
                    config.nodes@[i].addresses
                } else {
                    config.nodes@[i].alt_addresses@[network_type]
                };
                if tls_config is Some {
                    at.ssl_ports.kv is Some
                } else {
                    at.non_ssl_ports.kv is Some
                }
            }) ==> r.kv_targets@.contains_key(
                "kv"@ + ("ep-"@ + config.nodes@[i].addresses.hostname@ + "-"@ + decimal(
                    if config.nodes@[i].addresses.non_ssl_ports.mgmt is Some {
                        config.nodes@[i].addresses.non_ssl_ports.mgmt->0 as nat
                    } else {
                        0
                    },
                )),
            ),
        forall|key: Seq<char>| #[trigger]
            r.kv_targets@.contains_key(key) ==> exists|i: int|
                0 <= i < config.nodes@.len() && (network_type == "default"@ || (
                #[trigger] config.nodes@[i]).alt_addresses@.contains_key(network_type)) && ({
                    let own = config.nodes@[i].addresses;
                    let at = if network_type == "default"@ {
                        own
                    } else {
                        config.nodes@[i].alt_addresses@[network_type]
                    };
                    let target = r.kv_targets@[key];
                    &&& key == "kv"@ + ("ep-"@ + own.hostname@ + "-"@ + decimal(
                        if own.non_ssl_ports.mgmt is Some {
                            own.non_ssl_ports.mgmt->0 as nat
                        } else {
                            0
                        },
                    ))
                    &&& target.tls_config == tls_config
                    &&& target.address.host@ == at.hostname@
                    &&& tls_config is Some ==> at.ssl_ports.kv == Some(target.address.port)
                    &&& tls_config is None ==> at.non_ssl_ports.kv == Some(target.address.port)
                    &&& target.canonical_address.host@ == own.hostname@
                    &&& tls_config is Some && own.ssl_ports.kv is Some ==> own.ssl_ports.kv == Some(
                        target.canonical_address.port,
                    )
                    &&& tls_config is None && own.non_ssl_ports.kv is Some
                        ==> own.non_ssl_ports.kv == Some(target.canonical_address.port)
                    &&& (if tls_config is Some {
                        own.ssl_ports.kv is None
                    } else {
                        own.non_ssl_ports.kv is None
                    }) ==> target.canonical_address.port == target.address.port
                }),
{
    let facts = network_facts(config.nodes@, network_type);
    let views = r.kv_targets@.map_values(|t: KvTarget| t@);
    lemma_targets(facts, tls_config);
    lemma_facts_of_nodes(config.nodes@, network_type);
    assert forall|i: int|
        0 <= i < config.nodes@.len() && (network_type == "default"@ || (
        #[trigger] config.nodes@[i]).alt_addresses@.contains_key(network_type)) && ({
            let at = if network_type == "default"@ {
                config.nodes@[i].addresses
            } else {
                config.nodes@[i].alt_addresses@[network_type]
            };
            if tls_config is Some {
                at.ssl_ports.kv is Some
            } else {
                at.non_ssl_ports.kv is Some
            }
        }) implies r.kv_targets@.contains_key(
        "kv"@ + ("ep-"@ + config.nodes@[i].addresses.hostname@ + "-"@ + decimal(
            if config.nodes@[i].addresses.non_ssl_ports.mgmt is Some {
                config.nodes@[i].addresses.non_ssl_ports.mgmt->0 as nat
            } else {
                0
            },
        )),
    ) by {
        a_network_reaches_the_nodes_that_list_it(
            config.nodes@,
            network_type,
            config.nodes@[i],
        );
        let j = choose|j: int|
            0 <= j < facts.len() && #[trigger] facts[j] == facts_of(config.nodes@[i], network_type);
        assert(views.contains_key("kv"@ + facts[j].id));
    }
    assert forall|key: Seq<char>| #[trigger]
        r.kv_targets@.contains_key(key) implies exists|i: int|
        0 <= i < config.nodes@.len() && (network_type == "default"@ || (
        #[trigger] config.nodes@[i]).alt_addresses@.contains_key(network_type)) && ({
            let own = config.nodes@[i].addresses;
            let at = if network_type == "default"@ {
                own
            } else {
                config.nodes@[i].alt_addresses@[network_type]
            };
            let target = r.kv_targets@[key];
            &&& key == "kv"@ + ("ep-"@ + own.hostname@ + "-"@ + decimal(
                if own.non_ssl_ports.mgmt is Some {
                    own.non_ssl_ports.mgmt->0 as nat
                } else {
                    0
                },
            ))
            &&& target.tls_config == tls_config
            &&& target.address.host@ == at.hostname@
            &&& tls_config is Some ==> at.ssl_ports.kv == Some(target.address.port)
            &&& tls_config is None ==> at.non_ssl_ports.kv == Some(target.address.port)
            &&& target.canonical_address.host@ == own.hostname@
            &&& tls_config is Some && own.ssl_ports.kv is Some ==> own.ssl_ports.kv == Some(
                target.canonical_address.port,
            )
            &&& tls_config is None && own.non_ssl_ports.kv is Some ==> own.non_ssl_ports.kv == Some(
                target.canonical_address.port,
            )
            &&& (if tls_config is Some {
                own.ssl_ports.kv is None
            } else {
                own.non_ssl_ports.kv is None
            }) ==> target.canonical_address.port == target.address.port
        }) by {
        assert(views.contains_key(key) && views[key] == r.kv_targets@[key]@);
        assert(targets_of(facts, tls_config).contains_key(key));
        let j = choose|j: int|
            0 <= j < facts.len() && key == "kv"@ + (#[trigger] facts[j]).id && ({
                let target = targets_of(facts, tls_config)[key];
                let port = if tls_config is Some {
                    facts[j].tls.kv
                } else {
                    facts[j].plain.kv
                };
                let canonical = if tls_config is Some {
                    facts[j].canonical_tls.kv
                } else {
                    facts[j].canonical_plain.kv
                };
                &&& port == Some(target.address.port)
                &&& target.address.host == facts[j].host
                &&& target.tls_config == tls_config
                &&& target.canonical_address.host == facts[j].canonical_host
                &&& canonical is Some ==> canonical == Some(target.canonical_address.port)
                &&& canonical is None ==> target.canonical_address.port == target.address.port
            });
        let i = choose|i: int|
            0 <= i < config.nodes@.len() && facts_of(#[trigger] config.nodes@[i], network_type)
                == facts[j] && (network_type == "default"@
                || config.nodes@[i].alt_addresses@.contains_key(network_type));
        a_network_reaches_the_nodes_that_list_it(
            config.nodes@,
            network_type,
            config.nodes@[i],
        );
        assert(r.kv_targets@[key]@.address.host == r.kv_targets@[key].address.host@);
    }
}

proof fn lemma_endpoints(nodes: Seq<NodeFacts>, service: HttpService, tls: bool)
    ensures
        forall|j: int|
            0 <= j < nodes.len() && endpoint_at(#[trigger] nodes[j], service, tls) is Some
                ==> endpoints_of(nodes, service, tls).contains_key(
                id_prefix(service) + nodes[j].id,
            ),
        forall|key: Seq<char>| #[trigger]
            endpoints_of(nodes, service, tls).contains_key(key) ==> exists|j: int|
                0 <= j < nodes.len() && key == id_prefix(service) + (#[trigger] nodes[j]).id
                    && endpoint_at(nodes[j], service, tls) == Some(
                    endpoints_of(nodes, service, tls)[key],
                ),
    decreases nodes.len(),
{
    if nodes.len() > 0 {
        let front = nodes.drop_last();
        let last = nodes.len() - 1;
        lemma_endpoints(front, service, tls);
        assert forall|j: int|
            0 <= j < nodes.len() && endpoint_at(#[trigger] nodes[j], service, tls)
                is Some implies endpoints_of(nodes, service, tls).contains_key(
            id_prefix(service) + nodes[j].id,
        ) by {
            if j < last {
                assert(front[j] == nodes[j]);
            }
        }
        assert forall|key: Seq<char>| #[trigger]
            endpoints_of(nodes, service, tls).contains_key(key) implies exists|j: int|
            0 <= j < nodes.len() && key == id_prefix(service) + (#[trigger] nodes[j]).id
                && endpoint_at(nodes[j], service, tls) == Some(
                endpoints_of(nodes, service, tls)[key],
            ) by {
            if endpoint_at(nodes[last], service, tls) is Some && key == id_prefix(service)
                + nodes[last].id {
                assert(nodes[last] == nodes.last());
            } else {
                assert(endpoints_of(front, service, tls).contains_key(key));
                let j = choose|j: int|
                    0 <= j < front.len() && key == id_prefix(service) + (#[trigger] front[j]).id
                        && endpoint_at(front[j], service, tls) == Some(
                        endpoints_of(front, service, tls)[key],
                    );
                assert(front[j] == nodes[j]);
            }
        }
    }
}

/// What each service's component is told.
pub open spec fn endpoints_told(r: AgentComponentConfigs, service: HttpService) -> StringMap<
    NetworkAndCanonicalEndpoint,
> {
    match service {
        HttpService::Mgmt => r.mgmt_config.endpoints,
        HttpService::Analytics => r.analytics_config.endpoints,
        HttpService::Query => r.query_config.endpoints,
        HttpService::Search => r.search_config.endpoints,
        HttpService::Index => r.index_config.endpoints,
    }
}

proof fn lemma_told(
    r: AgentComponentConfigs,
    config: ParsedConfig,
    network_type: Seq<char>,
    tls_config: Option<TlsConfig>,
    bucket_name: Option<String>,
    authenticator: Authenticator,
    service: HttpService,
)
    requires
        is_generated(r, config, network_type, tls_config, bucket_name, authenticator),
    ensures
        endpoint_views(endpoints_told(r, service)) == endpoints_of(
            network_facts(config.nodes@, network_type),
            service,
            tls_config is Some,
        ),
{
}

proof fn lemma_endpoint_of_key(
    told: StringMap<NetworkAndCanonicalEndpoint>,
    nodes: Seq<ParsedConfigNode>,
    network_type: Seq<char>,
    service: HttpService,
    tls: bool,
    key: Seq<char>,
) -> (i: int)
    requires
        endpoint_views(told) == endpoints_of(network_facts(nodes, network_type), service, tls),
        told@.contains_key(key),
    ensures
        0 <= i < nodes.len(),
        network_type == "default"@ || nodes[i].alt_addresses@.contains_key(network_type),
        key == id_prefix(service) + facts_of(nodes[i], network_type).id,
        endpoint_at(facts_of(nodes[i], network_type), service, tls) == Some(told@[key]@),
{
    let facts = network_facts(nodes, network_type);
    let views = endpoint_views(told);
    lemma_endpoints(facts, service, tls);
    lemma_facts_of_nodes(nodes, network_type);
    assert(views.contains_key(key) && views[key] == told@[key]@);
    assert(endpoints_of(facts, service, tls).contains_key(key));
    let j = choose|j: int|
        0 <= j < facts.len() && key == id_prefix(service) + (#[trigger] facts[j]).id
            && endpoint_at(facts[j], service, tls) == Some(
            endpoints_of(facts, service, tls)[key],
        );
    choose|i: int|
        0 <= i < nodes.len() && facts_of(#[trigger] nodes[i], network_type) == facts[j] && (
        network_type == "default"@ || nodes[i].alt_addresses@.contains_key(network_type))
}

proof fn lemma_key_of_endpoint(
    told: StringMap<NetworkAndCanonicalEndpoint>,
    nodes: Seq<ParsedConfigNode>,
    network_type: Seq<char>,
    service: HttpService,
    tls: bool,
    i: int,
)
    requires
        endpoint_views(told) == endpoints_of(network_facts(nodes, network_type), service, tls),
        0 <= i < nodes.len(),
        network_type == "default"@ || nodes[i].alt_addresses@.contains_key(network_type),
        endpoint_at(facts_of(nodes[i], network_type), service, tls) is Some,
    ensures
        told@.contains_key(id_prefix(service) + facts_of(nodes[i], network_type).id),
{
    let facts = network_facts(nodes, network_type);
    let views = endpoint_views(told);
    lemma_endpoints(facts, service, tls);
    lemma_facts_of_nodes(nodes, network_type);
    let j = choose|j: int|
        0 <= j < facts.len() && #[trigger] facts[j] == facts_of(nodes[i], network_type);
    assert(views.contains_key(id_prefix(service) + facts[j].id));
}

/// Each service is reached at its own port: with a TLS config over `https` at
/// the port that a node has for the service over TLS, without one over `http`
/// at the plain port, at the host that the network in use has for the node. No
/// service is ever reached at another's port.
pub proof fn a_service_is_reached_at_its_own_port(
    r: AgentComponentConfigs,
    config: ParsedConfig,
    network_type: Seq<char>,
    tls_config: Option<TlsConfig>,
    bucket_name: Option<String>,
    authenticator: Authenticator,
    service: HttpService,
    key: Seq<char>,
) -> (i: int)
    requires
        is_generated(r, config, network_type, tls_config, bucket_name, authenticator),
        match service {
            HttpService::Mgmt => r.mgmt_config.endpoints@.contains_key(key),
            HttpService::Analytics => r.analytics_config.endpoints@.contains_key(key),
            HttpService::Query => r.query_config.endpoints@.contains_key(key),
            HttpService::Search => r.search_config.endpoints@.contains_key(key),
            HttpService::Index => r.index_config.endpoints@.contains_key(key),
        },
    ensures
        0 <= i < config.nodes@.len(),
        network_type == "default"@ || config.nodes@[i].alt_addresses@.contains_key(network_type),
        ({
            let own = config.nodes@[i].addresses;
            let at = if network_type == "default"@ {
                own
            } else {
                config.nodes@[i].alt_addresses@[network_type]
            };
            let ports = if tls_config is Some {
                at.ssl_ports
            } else {
                at.non_ssl_ports
            };
            let known = if tls_config is Some {
                own.ssl_ports
            } else {
                own.non_ssl_ports
            };
            let (endpoint, prefix, port, canonical) = match service {
                HttpService::Mgmt => (
                    r.mgmt_config.endpoints@[key],
                    "mgmt"@,
                    ports.mgmt,
                    known.mgmt,
                ),
                HttpService::Analytics => (
                    r.analytics_config.endpoints@[key],
                    "analytics"@,
                    ports.analytics,
                    known.analytics,
                ),
                HttpService::Query => (
                    r.query_config.endpoints@[key],
                    "query"@,
                    ports.query,
                    known.query,
                ),
                HttpService::Search => (
                    r.search_config.endpoints@[key],
                    "search"@,
                    ports.search,
                    known.search,
                ),
                HttpService::Index => (
                    r.index_config.endpoints@[key],
                    "index"@,
                    ports.index_http,
                    known.index_http,
                ),
            };
            let scheme = if tls_config is Some {
                "https://"@
            } else {
                "http://"@
            };
            &&& key == prefix + ("ep-"@ + own.hostname@ + "-"@ + decimal(
                if own.non_ssl_ports.mgmt is Some {
                    own.non_ssl_ports.mgmt->0 as nat
                } else {
                    0
                },
            ))
            &&& port is Some
            &&& endpoint.network_endpoint@ == scheme + at.hostname@ + ":"@ + decimal(
                port->0 as nat,
            )
            &&& canonical is Some ==> endpoint.canonical_endpoint@ == scheme + own.hostname@ + ":"@
                + decimal(canonical->0 as nat)
            &&& canonical is None ==> endpoint.canonical_endpoint@ == scheme + own.hostname@ + ":"@
                + decimal(port->0 as nat)
        }),
{
    lemma_told(r, config, network_type, tls_config, bucket_name, authenticator, service);
    let i = lemma_endpoint_of_key(
        endpoints_told(r, service),
        config.nodes@,
        network_type,
        service,
        tls_config is Some,
        key,
    );
    a_network_reaches_the_nodes_that_list_it(config.nodes@, network_type, config.nodes@[i]);
    i
}

/// A node that the network reaches offers each service it has a port for: over
/// TLS a TLS port, else a plain one.
pub proof fn a_node_with_a_port_offers_the_service(
    r: AgentComponentConfigs,
    config: ParsedConfig,
    network_type: Seq<char>,
    tls_config: Option<TlsConfig>,
    bucket_name: Option<String>,
    authenticator: Authenticator,
    i: int,
)
    requires
        is_generated(r, config, network_type, tls_config, bucket_name, authenticator),
        0 <= i < config.nodes@.len(),
        network_type == "default"@ || config.nodes@[i].alt_addresses@.contains_key(network_type),
    ensures
        ({
            let own = config.nodes@[i].addresses;
            let at = if network_type == "default"@ {
                own
            } else {
                config.nodes@[i].alt_addresses@[network_type]
            };
            let ports = if tls_config is Some {
                at.ssl_ports
            } else {
                at.non_ssl_ports
            };
            let id = "ep-"@ + own.hostname@ + "-"@ + decimal(
                if own.non_ssl_ports.mgmt is Some {
                    own.non_ssl_ports.mgmt->0 as nat
                } else {
                    0
                },
            );
            &&& ports.mgmt is Some ==> r.mgmt_config.endpoints@.contains_key("mgmt"@ + id)
            &&& ports.analytics is Some ==> r.analytics_config.endpoints@.contains_key(
                "analytics"@ + id,
            )
            &&& ports.query is Some ==> r.query_config.endpoints@.contains_key("query"@ + id)
            &&& ports.search is Some ==> r.search_config.endpoints@.contains_key("search"@ + id)
            &&& ports.index_http is Some ==> r.index_config.endpoints@.contains_key("index"@ + id)
        }),
{
    let nodes = config.nodes@;
    let tls = tls_config is Some;
    a_network_reaches_the_nodes_that_list_it(nodes, network_type, nodes[i]);
    let here = facts_of(nodes[i], network_type);
    lemma_told(r, config, network_type, tls_config, bucket_name, authenticator, HttpService::Mgmt);
    lemma_told(
        r,
        config,
        network_type,
        tls_config,
        bucket_name,
        authenticator,
        HttpService::Analytics,
    );
    lemma_told(r, config, network_type, tls_config, bucket_name, authenticator, HttpService::Query);
    lemma_told(
        r,
        config,
        network_type,
        tls_config,
        bucket_name,
        authenticator,
        HttpService::Search,
    );
    lemma_told(r, config, network_type, tls_config, bucket_name, authenticator, HttpService::Index);
    if endpoint_at(here, HttpService::Mgmt, tls) is Some {
        lemma_key_of_endpoint(
            r.mgmt_config.endpoints,
            nodes,
            network_type,
            HttpService::Mgmt,
            tls,
            i,
        );
    }
    if endpoint_at(here, HttpService::Analytics, tls) is Some {
        lemma_key_of_endpoint(
            r.analytics_config.endpoints,
            nodes,
            network_type,
            HttpService::Analytics,
            tls,
            i,
        );
    }
    if endpoint_at(here, HttpService::Query, tls) is Some {
        lemma_key_of_endpoint(
            r.query_config.endpoints,
            nodes,
            network_type,
            HttpService::Query,
            tls,
            i,
        );
    }
    if endpoint_at(here, HttpService::Search, tls) is Some {
        lemma_key_of_endpoint(
            r.search_config.endpoints,
            nodes,
            network_type,
            HttpService::Search,
            tls,
            i,
        );
    }
    if endpoint_at(here, HttpService::Index, tls) is Some {
        lemma_key_of_endpoint(
            r.index_config.endpoints,
            nodes,
            network_type,
            HttpService::Index,
            tls,
            i,
        );
    }
}

/// Over the default network the config is asked of every node, in the config's
/// order; and where the nodes that hold data are its first ones, the list that
/// a vbucket map points into is exactly those, in the same order.
pub proof fn servers_are_listed_in_the_order_of_the_config(
    r: AgentComponentConfigs,
    config: ParsedConfig,
    tls_config: Option<TlsConfig>,
    bucket_name: Option<String>,
    authenticator: Authenticator,
    data: int,
)
    requires
        is_generated(r, config, "default"@, tls_config, bucket_name, authenticator),
        0 <= data <= config.nodes@.len(),
        forall|i: int|
            0 <= i < config.nodes@.len() ==> ((#[trigger] config.nodes@[i]).has_data <==> i
                < data),
    ensures
        r.config_manager_memd_config.endpoints@.len() == config.nodes@.len(),
        r.vbucket_routing_info.server_list@.len() == data,
        forall|i: int|
            0 <= i < config.nodes@.len() ==> ({
                let own = (#[trigger] config.nodes@[i]).addresses;
                let id = "kv"@ + ("ep-"@ + own.hostname@ + "-"@ + decimal(
                    if own.non_ssl_ports.mgmt is Some {
                        own.non_ssl_ports.mgmt->0 as nat
                    } else {
                        0
                    },
                ));
                &&& r.config_manager_memd_config.endpoints@[i]@ == id
                &&& i < data ==> r.vbucket_routing_info.server_list@[i]@ == id
            }),
{
    lemma_servers(
        r.config_manager_memd_config.endpoints@,
        r.vbucket_routing_info.server_list@,
        config.nodes@,
        data,
    );
}

proof fn lemma_servers(
    endpoints: Seq<String>,
    servers: Seq<String>,
    nodes: Seq<ParsedConfigNode>,
    data: int,
)
    requires
        texts(endpoints) == kv_ids(network_facts(nodes, "default"@)),
        texts(servers) == data_ids(network_facts(nodes, "default"@)),
        0 <= data <= nodes.len(),
        forall|i: int| 0 <= i < nodes.len() ==> ((#[trigger] nodes[i]).has_data <==> i < data),
    ensures
        endpoints.len() == nodes.len(),
        servers.len() == data,
        forall|i: int|
            0 <= i < nodes.len() ==> endpoints[i]@ == "kv"@ + node_id_text(
                (#[trigger] nodes[i]).addresses,
            ),
        forall|i: int|
            0 <= i < data ==> servers[i]@ == "kv"@ + node_id_text((#[trigger] nodes[i]).addresses),
{
    let facts = network_facts(nodes, "default"@);
    let with_data = |n: NodeFacts| n.has_data;
    lemma_default_facts(nodes);
    assert(endpoints.len() == texts(endpoints).len());
    assert forall|i: int| 0 <= i < facts.len() implies (with_data(#[trigger] facts[i]) <==> i
        < data) by {
        assert(facts[i] == facts_of(nodes[i], "default"@));
    }
    lemma_first_kept(facts, with_data, data);
    assert(servers.len() == texts(servers).len());
    assert forall|i: int| 0 <= i < nodes.len() implies endpoints[i]@ == "kv"@ + node_id_text(
        (#[trigger] nodes[i]).addresses,
    ) by {
        assert(facts[i] == facts_of(nodes[i], "default"@));
        assert(texts(endpoints)[i] == kv_ids(facts)[i]);
    }
    assert forall|i: int| 0 <= i < data implies servers[i]@ == "kv"@ + node_id_text(
        (#[trigger] nodes[i]).addresses,
    ) by {
        assert(facts[i] == facts_of(nodes[i], "default"@));
        assert(facts.filter(with_data)[i] == facts[i]);
        assert(texts(servers)[i] == data_ids(facts)[i]);
    }
}

proof fn lemma_first_kept<A>(s: Seq<A>, keep: spec_fn(A) -> bool, k: int)
    requires
        0 <= k <= s.len(),
        forall|i: int| 0 <= i < s.len() ==> (keep(#[trigger] s[i]) <==> i < k),
    ensures
        s.filter(keep) == s.take(k),
    decreases s.len(),
{
    reveal(Seq::filter);
    if s.len() > 0 {
        let front = s.drop_last();
        let near = if k == s.len() {
            k - 1
        } else {
            k
        };
        assert forall|i: int| 0 <= i < front.len() implies (keep(#[trigger] front[i]) <==> i
            < near) by {
            assert(front[i] == s[i]);
        }
        lemma_first_kept(front, keep, near);
        assert(keep(s[s.len() - 1]) <==> s.len() - 1 < k);
        if k == s.len() {
            assert(front.take(near).push(s.last()) =~= s.take(k));
        } else {
            assert(front.take(near) =~= s.take(k));
        }
    } else {
        assert(s.take(k) =~= s);
    }
}

/// Every component is told the same credentials, the bucket that was asked for
/// and what the one config says: its revision, its labels, its vbucket map and
/// what its search service can do. Query and search can be diagnosed exactly
/// where an endpoint of theirs is known.
pub proof fn every_component_is_told_of_the_one_config(
    r: AgentComponentConfigs,
    config: ParsedConfig,
    network_type: Seq<char>,
    tls_config: Option<TlsConfig>,
    bucket_name: Option<String>,
    authenticator: Authenticator,
)
    requires
        is_generated(r, config, network_type, tls_config, bucket_name, authenticator),
    ensures
        r.auth == authenticator,
        r.query_config.authenticator == authenticator,
        r.analytics_config.authenticator == authenticator,
        r.search_config.authenticator == authenticator,
        r.mgmt_config.authenticator == authenticator,
        r.index_config.authenticator == authenticator,
        r.index_config.tls_config == tls_config,
        r.selected_bucket == bucket_name,
        r.diagnostics_config.bucket == bucket_name,
        r.diagnostics_config.rev_id == config.rev_id,
        r.tracing_config.cluster_labels == config.cluster_labels,
        r.search_config.vector_search_enabled <==> config.features@.contains(
            ParsedConfigFeature::FtsVectorSearch,
        ),
        r.vbucket_routing_info.bucket_selected <==> config.bucket is Some,
        config.bucket matches Some(bucket) ==> (bucket.vbucket_map matches Some(map) ==> (
        r.vbucket_routing_info.vbucket_info matches Some(info) && info.num_replicas
            == map.num_replicas && info.entries@.len() == map.entries@.len() && forall|i: int|
            0 <= i < map.entries@.len() ==> (#[trigger] info.entries@[i])@ == map.entries@[i]@)),
        r.diagnostics_config.services@.contains(ServiceType::MEMD),
        r.diagnostics_config.services@.contains(ServiceType::QUERY) <==> exists|key: Seq<char>|
            #[trigger] r.query_config.endpoints@.contains_key(key),
        r.diagnostics_config.services@.contains(ServiceType::SEARCH) <==> exists|key: Seq<char>|
            #[trigger] r.search_config.endpoints@.contains_key(key),
{
    let facts = network_facts(config.nodes@, network_type);
    let tls = tls_config is Some;
    let services = r.diagnostics_config.services@;
    lemma_some_endpoint(r.query_config.endpoints, facts, HttpService::Query, tls);
    lemma_some_endpoint(r.search_config.endpoints, facts, HttpService::Search, tls);
    assert(services[0] == ServiceType::MEMD);
    if services.contains(ServiceType::QUERY) {
        let i = choose|i: int| 0 <= i < services.len() && services[i] == ServiceType::QUERY;
        assert(services[i] == ServiceType::QUERY);
    }
    if endpoints_of(facts, HttpService::Query, tls).dom().len() > 0 {
        assert(services[1] == ServiceType::QUERY);
    }
    if endpoints_of(facts, HttpService::Search, tls).dom().len() > 0 {
        assert(services.last() == ServiceType::SEARCH);
    }
    if let Some(bucket) = config.bucket {
        if let Some(map) = bucket.vbucket_map {
            let info = r.vbucket_routing_info.vbucket_info->0;
            assert(info.rows().len() == map.rows().len());
            assert forall|i: int| 0 <= i < map.entries@.len() implies (
            #[trigger] info.entries@[i])@ == map.entries@[i]@ by {
                assert(info.rows()[i] == map.rows()[i]);
            }
        }
    }
}

proof fn lemma_endpoints_finite(nodes: Seq<NodeFacts>, service: HttpService, tls: bool)
    ensures
        endpoints_of(nodes, service, tls).dom().finite(),
    decreases nodes.len(),
{
    if nodes.len() > 0 {
        lemma_endpoints_finite(nodes.drop_last(), service, tls);
    }
}

proof fn lemma_some_endpoint(
    endpoints: StringMap<NetworkAndCanonicalEndpoint>,
    nodes: Seq<NodeFacts>,
    service: HttpService,
    tls: bool,
)
    requires
        endpoint_views(endpoints) == endpoints_of(nodes, service, tls),
    ensures
        endpoints_of(nodes, service, tls).dom().len() > 0 <==> exists|key: Seq<char>| #[trigger]
            endpoints@.contains_key(key),
{
    let dom = endpoints_of(nodes, service, tls).dom();
    lemma_endpoints_finite(nodes, service, tls);
    assert(dom =~= endpoints@.dom());
    if dom.len() > 0 {
        let key = dom.choose();
        assert(dom.contains(key));
        assert(endpoints@.contains_key(key));
    }
    if exists|key: Seq<char>| #[trigger] endpoints@.contains_key(key) {
        let key = choose|key: Seq<char>| #[trigger] endpoints@.contains_key(key);
        assert(dom.contains(key));
        if dom.len() == 0 {
            assert(dom =~= Set::empty());
        }
    }
}

} // verus!
