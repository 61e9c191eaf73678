//! The agent: how it starts from its options and a seed list, what it does with
//! a new cluster config, and what it knows of the cluster.
//!
//! Dialling, fetching and waiting are the program's. A bootstrap says which
//! endpoint to ask and takes the answer; an update is a list of steps in the
//! order in which they have to be taken.
use std::time::Duration;
use vstd::prelude::*;
use crate::address::Address;
use crate::agent_ops::{quote, quoted};
use crate::authenticator::{Auth, Authenticator, TlsConfig};
use crate::componentconfigs::{AgentComponentConfigs, KvTarget};
use crate::configparser::{has_empty_map, is_parsed, ConfigParser, TerseConfig};
use crate::duration::{duration_message, duration_text, nanos_in, seconds};
use crate::error::{Error, ErrorKind, MemdxError};
use crate::memdx::OpCode;
use crate::parsedconfig::{ParsedConfig, ParsedConfigBucketFeature};
use crate::service_type::ServiceType;
use crate::string_map::StringMap;
use crate::text::{decimal, owned, push_decimal, same_text};

verus! {

/// How a client proves its identity to a key-value node.
#[derive(Debug, Clone, Copy, PartialEq, Eq, Structural)]
pub enum AuthMechanism {
    Plain,
    ScramSha1,
    ScramSha256,
    ScramSha512,
}

/// Where to look for the first cluster config.
pub struct SeedConfig {
    pub memd_addrs: Vec<Address>,
    pub http_addrs: Vec<Address>,
}

pub struct KvConfig {
    pub enable_error_map: bool,
    pub enable_mutation_tokens: bool,
    pub enable_server_durations: bool,
    pub num_connections: usize,
    pub num_bulk_connections: usize,
    pub on_demand_connect: bool,
    pub surface_connect_errors: bool,
    pub connect_timeout: Duration,
    pub connect_throttle_timeout: Duration,
}

pub struct HttpConfig {
    pub idle_connection_timeout: Duration,
    pub max_idle_connections_per_host: Option<usize>,
}

/// What an agent is started with.
pub struct AgentOptions {
    pub seed_config: SeedConfig,
    pub authenticator: Authenticator,
    pub auth_mechanisms: Vec<AuthMechanism>,
    pub tls_config: Option<TlsConfig>,
    pub bucket_name: Option<String>,
    /// The network to reach the cluster over. Absent, empty or `auto` leaves it
    /// to what the first config suggests.
    pub network: Option<String>,
    pub kv_config: KvConfig,
    pub http_config: HttpConfig,
    pub tcp_keep_alive_time: Option<Duration>,
    pub disable_decompression: bool,
    /// Report what every endpoint said instead of starting over.
    pub surface_bootstrap_errors: bool,
}

/// The keep-alive time where none is given, in seconds.
pub const DEFAULT_KEEP_ALIVE_SECS: u64 = 60;

/// How long a bootstrap rests before it starts over.
pub const BOOTSTRAP_REST_MILLIS: u64 = 1000;

pub struct AgentState {
    pub bucket: Option<String>,
    pub tls_config: Option<TlsConfig>,
    pub authenticator: Authenticator,
    pub auth_mechanisms: Vec<AuthMechanism>,
    pub num_pool_connections: usize,
    pub latest_config: ParsedConfig,
    pub network_type: String,
    pub disable_error_map: bool,
    pub disable_mutation_tokens: bool,
    pub disable_server_durations: bool,
    pub kv_connect_timeout: Duration,
    pub kv_connect_throttle_timeout: Duration,
    pub http_idle_connection_timeout: Duration,
    pub http_max_idle_connections_per_host: Option<usize>,
    pub tcp_keep_alive_time: Duration,
    pub surface_bootstrap_errors: bool,
}

/// The keep-alive time that was given, or else the default.
pub open spec fn is_keep_alive(given: Option<Duration>, d: Duration) -> bool {
    match given {
        Some(given) => d == given,
        None => nanos_in(d) == DEFAULT_KEEP_ALIVE_SECS * 1_000_000_000,
    }
}

fn copied_option(s: &Option<String>) -> (r: Option<String>)
    ensures
        r == *s,
{
    match s {
        Some(s) => Some(s.clone()),
        None => None,
    }
}

impl AgentState {
    /// The state before the first config.
    pub fn new(opts: &AgentOptions) -> (r: AgentState)
        ensures
            r.bucket == opts.bucket_name,
            r.tls_config == opts.tls_config,
            r.authenticator == opts.authenticator,
            r.auth_mechanisms@ == opts.auth_mechanisms@,
            r.num_pool_connections == opts.kv_config.num_connections,
            r.latest_config.rev_id == 0 && r.latest_config.rev_epoch == 0
                && r.latest_config.bucket is None && r.latest_config.nodes@.len() == 0
                && r.latest_config.features@.len() == 0
                && r.latest_config.source_hostname@.len() == 0
                && r.latest_config.cluster_labels is None,
            r.network_type@.len() == 0,
            r.disable_error_map == !opts.kv_config.enable_error_map,
            r.disable_mutation_tokens == !opts.kv_config.enable_mutation_tokens,
            r.disable_server_durations == !opts.kv_config.enable_server_durations,
            r.kv_connect_timeout == opts.kv_config.connect_timeout,
            r.kv_connect_throttle_timeout == opts.kv_config.connect_throttle_timeout,
            r.http_idle_connection_timeout == opts.http_config.idle_connection_timeout,
            r.http_max_idle_connections_per_host
                == opts.http_config.max_idle_connections_per_host,
            is_keep_alive(opts.tcp_keep_alive_time, r.tcp_keep_alive_time),
            r.surface_bootstrap_errors == opts.surface_bootstrap_errors,
    {
        let auth_mechanisms: Vec<AuthMechanism> = opts.auth_mechanisms.clone();
        assert(auth_mechanisms@ =~= opts.auth_mechanisms@);
        proof {
            reveal_strlit("");
        }
        AgentState {
            bucket: copied_option(&opts.bucket_name),
            tls_config: opts.tls_config,
            authenticator: opts.authenticator.clone(),
            auth_mechanisms,
            num_pool_connections: opts.kv_config.num_connections,
            latest_config: ParsedConfig::default(),
            network_type: owned(""),
            disable_error_map: !opts.kv_config.enable_error_map,
            disable_mutation_tokens: !opts.kv_config.enable_mutation_tokens,
            disable_server_durations: !opts.kv_config.enable_server_durations,
            kv_connect_timeout: opts.kv_config.connect_timeout,
            kv_connect_throttle_timeout: opts.kv_config.connect_throttle_timeout,
            http_idle_connection_timeout: opts.http_config.idle_connection_timeout,
            http_max_idle_connections_per_host: opts.http_config.max_idle_connections_per_host,
            tcp_keep_alive_time: match opts.tcp_keep_alive_time {
                Some(given) => given,
                None => seconds(DEFAULT_KEEP_ALIVE_SECS),
            },
            surface_bootstrap_errors: opts.surface_bootstrap_errors,
        }
    }
}

/// What is odd about the mechanisms that were asked for.
pub enum MechanismWarning {
    /// The password would go out readable by anyone.
    PlainWithoutTls,
    /// Over TLS the password may as well go out as it is.
    ScramOverTls,
}

pub open spec fn asks_for_scram(mechanisms: Seq<AuthMechanism>) -> bool {
    mechanisms.contains(AuthMechanism::ScramSha512) || mechanisms.contains(
        AuthMechanism::ScramSha256,
    ) || mechanisms.contains(AuthMechanism::ScramSha1)
}

/// Whether the mechanisms are worth a warning, with TLS or without.
pub open spec fn warning_of(mechanisms: Seq<AuthMechanism>, tls: bool) -> Option<MechanismWarning> {
    if !tls && mechanisms.contains(AuthMechanism::Plain) {
        Some(MechanismWarning::PlainWithoutTls)
    } else if tls && asks_for_scram(mechanisms) {
        Some(MechanismWarning::ScramOverTls)
    } else {
        None
    }
}

fn asks_for(mechanisms: &Vec<AuthMechanism>, wanted: AuthMechanism) -> (r: bool)
    ensures
        r == mechanisms@.contains(wanted),
{
    let mut i: usize = 0;
    while i < mechanisms.len()
        invariant
            i <= mechanisms.len(),
            forall|j: int| 0 <= j < i ==> mechanisms@[j] != wanted,
        decreases mechanisms.len() - i,
    {
        if mechanisms[i] == wanted {
            assert(mechanisms@[i as int] == wanted);
            return true;
        }
        i += 1;
    }
    false
}

/// What to warn of before an agent starts.
pub fn mechanism_warning(opts: &AgentOptions) -> (r: Option<MechanismWarning>)
    ensures
        r == warning_of(opts.auth_mechanisms@, opts.tls_config is Some),
{
    let mechanisms: &Vec<AuthMechanism> = &opts.auth_mechanisms;
    if opts.tls_config.is_none() {
        if asks_for(mechanisms, AuthMechanism::Plain) {
            return Some(MechanismWarning::PlainWithoutTls);
        }
        return None;
    }
    if asks_for(mechanisms, AuthMechanism::ScramSha512) || asks_for(
        mechanisms,
        AuthMechanism::ScramSha256,
    ) || asks_for(mechanisms, AuthMechanism::ScramSha1) {
        Some(MechanismWarning::ScramOverTls)
    } else {
        None
    }
}

/// How a number is written in decimal, with a sign where it is negative.
pub open spec fn signed_decimal(n: int) -> Seq<char> {
    if n < 0 {
        "-"@ + decimal((-n) as nat)
    } else {
        decimal(n as nat)
    }
}

fn push_signed(out: &mut String, n: i64)
    ensures
        final(out)@ == old(out)@ + signed_decimal(n as int),
{
    if n < 0 {
        out.append("-");
        let magnitude: u64 = (-(n + 1)) as u64 + 1;
        push_decimal(out, magnitude);
        assert(out@ =~= old(out)@ + signed_decimal(n as int));
    } else {
        push_decimal(out, n as u64);
    }
}

impl AgentState {
    pub open spec fn text(&self, authenticator: Seq<char>) -> Seq<char> {
        "{ bucket: "@ + (match self.bucket {
            Some(name) => "Some("@ + quoted(name@) + ")"@,
            None => "None"@,
        }) + ", network_type: "@ + self.network_type@ + ", num_pool_connections: "@ + decimal(
            self.num_pool_connections as nat,
        ) + ", latest_config_rev_id: "@ + signed_decimal(self.latest_config.rev_id as int)
            + ", latest_config_rev_epoch: "@ + signed_decimal(self.latest_config.rev_epoch as int)
            + ", authenticator: "@ + authenticator + " }"@
    }

    /// How the state reads. `authenticator` is how its authenticator does.
    pub fn message(&self, authenticator: &str) -> (r: String)
        ensures
            r@ == self.text(authenticator@),
    {
        let mut r: String = owned("{ bucket: ");
        match &self.bucket {
            Some(name) => {
                let mut bucket: String = owned("Some(");
                let text: String = quote(name.as_str());
                bucket.append(text.as_str());
                bucket.append(")");
                r.append(bucket.as_str());
            },
            None => {
                r.append("None");
            },
        }
        r.append(", network_type: ");
        r.append(self.network_type.as_str());
        r.append(", num_pool_connections: ");
        push_decimal(&mut r, self.num_pool_connections as u64);
        r.append(", latest_config_rev_id: ");
        push_signed(&mut r, self.latest_config.rev_id);
        r.append(", latest_config_rev_epoch: ");
        push_signed(&mut r, self.latest_config.rev_epoch);
        r.append(", authenticator: ");
        r.append(authenticator);
        r.append(" }");
        r
    }
}

/// What the agent calls itself.
pub fn user_agent(build_version: &str) -> (r: String)
    ensures
        r@ == "cb-rust/"@ + build_version@,
{
    let mut r: String = owned("cb-rust/");
    r.append(build_version);
    r
}

/// Whether the caller named a network.
pub open spec fn is_named_network(network: Option<String>) -> bool {
    match network {
        Some(network) => network@ != "auto"@ && network@.len() > 0,
        None => false,
    }
}

/// The network the caller named. `None` leaves it to what the first config
/// suggests.
pub fn named_network(network: Option<String>) -> (r: Option<String>)
    ensures
        r == (if is_named_network(network) {
            network
        } else {
            None
        }),
{
    match network {
        Some(network) => {
            if same_text(network.as_str(), "auto") || network.as_str().is_empty() {
                None
            } else {
                Some(network)
            }
        },
        None => None,
    }
}

/// The seeds of a key-value bootstrap, each under a name of its own.
pub open spec fn first_targets(addrs: Seq<Address>, tls_config: Option<TlsConfig>) -> Map<
    Seq<char>,
    KvTarget,
>
    decreases addrs.len(),
{
    if addrs.len() == 0 {
        Map::empty()
    } else {
        first_targets(addrs.drop_last(), tls_config).insert(
            "kv-"@ + addrs.last().text(),
            KvTarget {
                address: addrs.last(),
                tls_config,
                canonical_address: addrs.last(),
            },
        )
    }
}

/// The key-value nodes to ask for the first config.
pub fn gen_first_kv_client_configs(memd_addrs: &Vec<Address>, state: &AgentState) -> (r: StringMap<
    KvTarget,
>)
    ensures
        r@ == first_targets(memd_addrs@, state.tls_config),
{
    let mut clients: StringMap<KvTarget> = StringMap::new();
    let mut i: usize = 0;
    while i < memd_addrs.len()
        invariant
            i <= memd_addrs.len(),
            clients@ == first_targets(memd_addrs@.take(i as int), state.tls_config),
        decreases memd_addrs.len() - i,
    {
        let addr: &Address = &memd_addrs[i];
        let mut node_id: String = owned("kv-");
        let text: String = addr.message();
        node_id.append(text.as_str());
        let target: KvTarget = KvTarget {
            address: addr.clone(),
            tls_config: state.tls_config,
            canonical_address: addr.clone(),
        };
        clients.insert(node_id, target);
        assert(memd_addrs@.take(i + 1).drop_last() =~= memd_addrs@.take(i as int));
        i += 1;
    }
    assert(memd_addrs@.take(memd_addrs@.len() as int) =~= memd_addrs@);
    clients
}

/// A management endpoint to ask for the first config.
pub struct FirstHttpConfig {
    pub endpoint: String,
    pub tls: Option<TlsConfig>,
    pub user_agent: String,
    pub authenticator: Authenticator,
    pub bucket_name: Option<String>,
}

/// A management endpoint, apart from how it is stored.
pub struct FirstHttpView {
    pub endpoint: Seq<char>,
    pub tls: Option<TlsConfig>,
    pub user_agent: Seq<char>,
    pub authenticator: Authenticator,
    pub bucket_name: Option<String>,
}

impl View for FirstHttpConfig {
    type V = FirstHttpView;

    open spec fn view(&self) -> FirstHttpView {
        FirstHttpView {
            endpoint: self.endpoint@,
            tls: self.tls,
            user_agent: self.user_agent@,
            authenticator: self.authenticator,
            bucket_name: self.bucket_name,
        }
    }
}

/// The URL of a management seed.
pub open spec fn seed_url(tls: bool, addr: Address) -> Seq<char> {
    (if tls {
        "https"@
    } else {
        "http"@
    }) + "://"@ + addr.text()
}

/// The seeds of an HTTP bootstrap, each under a name of its own.
pub open spec fn first_endpoints(
    addrs: Seq<Address>,
    client_name: Seq<char>,
    state: AgentState,
) -> Map<Seq<char>, FirstHttpView>
    decreases addrs.len(),
{
    if addrs.len() == 0 {
        Map::empty()
    } else {
        first_endpoints(addrs.drop_last(), client_name, state).insert(
            "mgmt"@ + addrs.last().text(),
            FirstHttpView {
                endpoint: seed_url(state.tls_config is Some, addrs.last()),
                tls: state.tls_config,
                user_agent: client_name,
                authenticator: state.authenticator,
                bucket_name: state.bucket,
            },
        )
    }
}

/// The management endpoints to ask for the first config.
pub fn gen_first_http_endpoints(
    client_name: &str,
    mgmt_addrs: &Vec<Address>,
    state: &AgentState,
) -> (r: StringMap<FirstHttpConfig>)
    ensures
        r@.map_values(|c: FirstHttpConfig| c@) == first_endpoints(
            mgmt_addrs@,
            client_name@,
            *state,
        ),
{
    let mut clients: StringMap<FirstHttpConfig> = StringMap::new();
    let mut i: usize = 0;
    assert(clients@.map_values(|c: FirstHttpConfig| c@) =~= Map::empty());
    while i < mgmt_addrs.len()
        invariant
            i <= mgmt_addrs.len(),
            clients@.map_values(|c: FirstHttpConfig| c@) == first_endpoints(
                mgmt_addrs@.take(i as int),
                client_name@,
                *state,
            ),
        decreases mgmt_addrs.len() - i,
    {
        let addr: &Address = &mgmt_addrs[i];
        let text: String = addr.message();
        let mut node_id: String = owned("mgmt");
        node_id.append(text.as_str());
        let mut endpoint: String = if state.tls_config.is_some() {
            owned("https")
        } else {
            owned("http")
        };
        endpoint.append("://");
        endpoint.append(text.as_str());
        let config: FirstHttpConfig = FirstHttpConfig {
            endpoint,
            tls: state.tls_config,
            user_agent: owned(client_name),
            authenticator: state.authenticator.clone(),
            bucket_name: copied_option(&state.bucket),
        };
        let ghost before = clients@;
        let ghost added = config;
        clients.insert(node_id, config);
        proof {
            assert(mgmt_addrs@.take(i + 1).drop_last() =~= mgmt_addrs@.take(i as int));
            assert(clients@.map_values(|c: FirstHttpConfig| c@) =~= before.map_values(
                |c: FirstHttpConfig| c@,
            ).insert("mgmt"@ + addr.text(), added@));
        }
        i += 1;
    }
    assert(mgmt_addrs@.take(mgmt_addrs@.len() as int) =~= mgmt_addrs@);
    clients
}

/// What a management endpoint is presented with. A certificate is presented by
/// the connection itself, so the header is empty.
pub open spec fn is_bootstrap_auth(r: Auth, authenticator: Authenticator) -> bool {
    match authenticator {
        Authenticator::PasswordAuthenticator(a) => r matches Auth::BasicAuth { username, password }
            && username@ == a.username@ && password@ == a.password@,
        Authenticator::CertificateAuthenticator(_) => r matches Auth::BasicAuth {
            username,
            password,
        } && username@.len() == 0 && password@.len() == 0,
        Authenticator::JwtAuthenticator(a) => r matches Auth::BearerAuth { token } && token@
            == a.token@,
    }
}

pub fn bootstrap_auth(authenticator: &Authenticator) -> (r: Auth)
    ensures
        is_bootstrap_auth(r, *authenticator),
{
    match authenticator {
        Authenticator::PasswordAuthenticator(a) => Auth::BasicAuth {
            username: a.username.clone(),
            password: a.password.clone(),
        },
        Authenticator::CertificateAuthenticator(_) => {
            proof {
                reveal_strlit("");
            }
            Auth::BasicAuth { username: owned(""), password: owned("") }
        },
        Authenticator::JwtAuthenticator(a) => Auth::BearerAuth { token: a.token.clone() },
    }
}

/// What came of asking a key-value node for its config.
pub enum KvAttempt {
    /// It could not be connected to.
    NotConnected(Error),
    /// It was not connected to in time.
    TimedOut,
    /// It did not give a config.
    NoConfig(MemdxError),
    /// It gave one, and the connection could not be closed behind it.
    NotClosed(Error),
    /// It gave one: what the bytes decode to, or what the decoder said.
    Config(Result<TerseConfig, String>),
}

/// What came of asking a management endpoint.
pub enum HttpAttempt {
    /// Its URL has no host and port.
    NoHost(Error),
    /// What it answered, under the host and port of its URL.
    Answered(String, Result<ParsedConfig, Error>),
}

/// The endpoint to ask next.
pub enum Next<'a> {
    Kv(&'a KvTarget),
    Http(&'a FirstHttpConfig),
    /// All of them were asked.
    Nobody,
}

/// What an answer ends a bootstrap with: a config and where it came from, or an
/// error. `None` goes on to the next endpoint.
pub type Ending = Option<Result<(ParsedConfig, String), Error>>;

/// The search for the first config: every key-value node in turn, then every
/// management endpoint, then all over again.
pub struct Bootstrap {
    kv: Vec<KvTarget>,
    http: Vec<FirstHttpConfig>,
    kv_asked: usize,
    http_asked: usize,
    errors: StringMap<Error>,
    surface_errors: bool,
    connect_timeout: Duration,
}

/// What a failed key-value attempt is recorded as, where it does not end the
/// search.
pub open spec fn is_kv_failure(attempt: KvAttempt, timeout: Duration, e: Error) -> bool {
    match attempt {
        KvAttempt::NotConnected(cause) => e == cause,
        KvAttempt::TimedOut => e.spec_kind() matches ErrorKind::Message { msg } && msg@
            == "timed out connecting to endpoint after "@ + duration_text(timeout)
            && e.spec_retry_info() is None,
        KvAttempt::NoConfig(cause) => e.spec_kind() == ErrorKind::Memdx(cause)
            && e.spec_retry_info() is None,
        KvAttempt::Config(Ok(config)) => has_empty_map(config) && e.spec_kind()
            == ErrorKind::NoVbucketMap && e.spec_retry_info() is None,
        _ => false,
    }
}

impl Bootstrap {
    pub closed spec fn kv(&self) -> Seq<KvTarget> {
        self.kv@
    }

    pub closed spec fn http(&self) -> Seq<FirstHttpConfig> {
        self.http@
    }

    /// How many key-value nodes were asked in this pass.
    pub closed spec fn kv_asked(&self) -> int {
        self.kv_asked as int
    }

    /// How many management endpoints were asked in this pass.
    pub closed spec fn http_asked(&self) -> int {
        self.http_asked as int
    }

    /// What each endpoint said in this pass.
    pub closed spec fn errors(&self) -> Map<Seq<char>, Error> {
        self.errors@
    }

    pub closed spec fn surfaces(&self) -> bool {
        self.surface_errors
    }

    pub closed spec fn timeout(&self) -> Duration {
        self.connect_timeout
    }

    pub open spec fn asks_kv(&self) -> bool {
        self.kv_asked() < self.kv().len()
    }

    pub open spec fn asks_http(&self) -> bool {
        !self.asks_kv() && self.http_asked() < self.http().len()
    }

    /// Everything but the pass under way is that of another search.
    pub open spec fn same_search(&self, other: &Bootstrap) -> bool {
        &&& self.kv() == other.kv()
        &&& self.http() == other.http()
        &&& self.surfaces() == other.surfaces()
        &&& self.timeout() == other.timeout()
    }

    /// This endpoint failed with `e`, and it is the next one's turn.
    pub open spec fn recorded(&self, before: &Bootstrap, endpoint: Seq<char>, e: Error) -> bool {
        &&& self.same_search(before)
        &&& if before.asks_kv() {
            self.kv_asked() == before.kv_asked() + 1 && self.http_asked() == before.http_asked()
        } else {
            self.kv_asked() == before.kv_asked() && self.http_asked() == before.http_asked() + 1
        }
        &&& self.errors() == before.errors().insert(endpoint, e)
    }

    /// Starts a search over these endpoints.
    pub fn new(
        kv_targets: StringMap<KvTarget>,
        http_configs: StringMap<FirstHttpConfig>,
        state: &AgentState,
    ) -> (r: Self)
        ensures
            r.kv() == kv_targets.listing().map_values(|e: (String, KvTarget)| e.1),
            r.http() == http_configs.listing().map_values(|e: (String, FirstHttpConfig)| e.1),
            r.kv_asked() == 0,
            r.http_asked() == 0,
            r.errors() == Map::<Seq<char>, Error>::empty(),
            r.surfaces() == state.surface_bootstrap_errors,
            r.timeout() == state.kv_connect_timeout,
    {
        let ghost all = kv_targets.listing();
        let mut kv: Vec<KvTarget> = Vec::new();
        for entry in it: kv_targets.into_entries()
            invariant
                it.seq() == all,
                kv@ == all.take(it.index() as int).map_values(|e: (String, KvTarget)| e.1),
        {
            assert(all.take(it.index() + 1) =~= all.take(it.index() as int).push(entry));
            kv.push(entry.1);
        }
        assert(all.take(all.len() as int) =~= all);
        let ghost ends = http_configs.listing();
        let mut http: Vec<FirstHttpConfig> = Vec::new();
        for entry in it: http_configs.into_entries()
            invariant
                it.seq() == ends,
                http@ == ends.take(it.index() as int).map_values(
                    |e: (String, FirstHttpConfig)| e.1,
                ),
        {
            assert(ends.take(it.index() + 1) =~= ends.take(it.index() as int).push(entry));
            http.push(entry.1);
        }
        assert(ends.take(ends.len() as int) =~= ends);
        Bootstrap {
            kv,
            http,
            kv_asked: 0,
            http_asked: 0,
            errors: StringMap::new(),
            surface_errors: state.surface_bootstrap_errors,
            connect_timeout: state.kv_connect_timeout,
        }
    }

    /// The endpoint to ask next.
    pub fn next(&self) -> (r: Next<'_>)
        ensures
            if self.asks_kv() {
                r matches Next::Kv(target) && *target == self.kv()[self.kv_asked()]
            } else if self.asks_http() {
                r matches Next::Http(config) && *config == self.http()[self.http_asked()]
            } else {
                r is Nobody
            },
    {
        if self.kv_asked < self.kv.len() {
            Next::Kv(&self.kv[self.kv_asked])
        } else if self.http_asked < self.http.len() {
            Next::Http(&self.http[self.http_asked])
        } else {
            Next::Nobody
        }
    }

    /// Takes what a key-value node answered. A config that can be read ends the
    /// search; so does one that cannot be decoded, and a connection that cannot
    /// be closed. Anything else is recorded under the node's address.
    pub fn kv_answered(&mut self, attempt: KvAttempt) -> (r: Ending)
        requires
            old(self).asks_kv(),
        ensures
            ({
                let host = old(self).kv()[old(self).kv_asked()].address;
                match r {
                    Some(Ok((config, source))) => {
                        &&& attempt matches KvAttempt::Config(Ok(terse))
                        &&& is_parsed(config, terse, host.host@)
                        &&& source@ == host.text()
                    },
                    Some(Err(e)) => match attempt {
                        KvAttempt::NotClosed(cause) => e == cause,
                        KvAttempt::Config(Err(text)) => e.spec_kind() matches ErrorKind::Message {
                            msg,
                        } && msg@ == "failed to deserialize config: "@ + text@ && e.spec_retry_info() is None,
                        _ => false,
                    },
                    None => exists|e: Error| #[trigger]
                        is_kv_failure(attempt, old(self).timeout(), e) && final(self).recorded(
                            old(self),
                            host.text(),
                            e,
                        ),
                }
            }),
            r is Some ==> *final(self) == *old(self),
            attempt matches KvAttempt::Config(Ok(terse)) ==> (r is None <==> has_empty_map(terse)),
    {
        let host: Address = self.kv[self.kv_asked].address.clone();
        let timeout: Duration = self.connect_timeout;
        let ghost asked_for = attempt;
        let e: Error = match attempt {
            KvAttempt::NotConnected(e) => e,
            KvAttempt::TimedOut => {
                let mut msg: String = owned("timed out connecting to endpoint after ");
                let text: String = duration_message(timeout);
                msg.append(text.as_str());
                Error::new_message_error(msg.as_str())
            },
            KvAttempt::NoConfig(e) => Error::new_contextual_memdx_error(e),
            KvAttempt::NotClosed(e) => {
                return Some(Err(e));
            },
            KvAttempt::Config(Err(text)) => {
                let mut msg: String = owned("failed to deserialize config: ");
                msg.append(text.as_str());
                return Some(Err(Error::new_message_error(msg.as_str())));
            },
            KvAttempt::Config(Ok(config)) => {
                match ConfigParser::parse_terse_config(config, host.host.as_str()) {
                    Ok(parsed) => {
                        return Some(Ok((parsed, host.message())));
                    },
                    Err(e) => e,
                }
            },
        };
        assert(is_kv_failure(asked_for, timeout, e));
        self.record(host.message(), e);
        None
    }

    fn record(&mut self, endpoint: String, e: Error)
        requires
            old(self).asks_kv() || old(self).asks_http(),
        ensures
            final(self).recorded(old(self), endpoint@, e),
    {
        self.errors.insert(endpoint, e);
        if self.kv_asked < self.kv.len() {
            self.kv_asked = self.kv_asked + 1;
        } else if self.http_asked < self.http.len() {
            self.http_asked = self.http_asked + 1;
        }
    }

    /// Takes what a management endpoint answered: a config ends the search, and
    /// so does a URL without a host; a failure is recorded under its host and
    /// port.
    pub fn http_answered(&mut self, attempt: HttpAttempt) -> (r: Ending)
        requires
            old(self).asks_http(),
        ensures
            match attempt {
                HttpAttempt::NoHost(e) => r == Some(
                    Err::<(ParsedConfig, String), Error>(e),
                ) && *final(self) == *old(self),
                HttpAttempt::Answered(host_port, Ok(config)) => r == Some(
                    Ok::<(ParsedConfig, String), Error>((config, host_port)),
                ) && *final(self) == *old(self),
                HttpAttempt::Answered(host_port, Err(e)) => r is None && final(self).recorded(
                    old(self),
                    host_port@,
                    e,
                ),
            },
    {
        match attempt {
            HttpAttempt::NoHost(e) => Some(Err(e)),
            HttpAttempt::Answered(host_port, Ok(config)) => Some(Ok((config, host_port))),
            HttpAttempt::Answered(host_port, Err(e)) => {
                self.record(host_port, e);
                None
            },
        }
    }

    /// Nobody gave a config. Where errors are to be surfaced, this is the one
    /// that says what every endpoint said. Else the search starts over, behind
    /// a rest of [`BOOTSTRAP_REST_MILLIS`].
    pub fn exhausted(&mut self) -> (r: Option<Error>)
        ensures
            final(self).same_search(old(self)),
            final(self).kv_asked() == 0,
            final(self).http_asked() == 0,
            final(self).errors() == Map::<Seq<char>, Error>::empty(),
            if old(self).surfaces() {
                r matches Some(e) && (e.spec_kind() matches ErrorKind::BootstrapAllFailed {
                    errors,
                } && errors@ == old(self).errors()) && e.spec_retry_info() is None
            } else {
                r is None
            },
    {
        let mut errors: StringMap<Error> = StringMap::new();
        std::mem::swap(&mut errors, &mut self.errors);
        self.kv_asked = 0;
        self.http_asked = 0;
        if self.surface_errors {
            Some(Error::new_bootstrap_all_failed_error(errors))
        } else {
            None
        }
    }
}

/// Which config a management endpoint is asked for.
pub enum HttpConfigRequest<'a> {
    Bucket(&'a str),
    Cluster,
}

impl FirstHttpConfig {
    /// The selected bucket's config, or the cluster's where there is none.
    pub fn request(&self) -> (r: HttpConfigRequest<'_>)
        ensures
            match self.bucket_name {
                Some(name) => r matches HttpConfigRequest::Bucket(asked) && asked@ == name@,
                None => r is Cluster,
            },
    {
        match &self.bucket_name {
            Some(name) => HttpConfigRequest::Bucket(name.as_str()),
            None => HttpConfigRequest::Cluster,
        }
    }
}

/// Each pass records an endpoint's failure under its own name, so no failure
/// hides another's.
pub proof fn each_endpoint_is_answered_for(
    before: Bootstrap,
    after: Bootstrap,
    endpoint: Seq<char>,
    e: Error,
    other: Seq<char>,
)
    requires
        after.recorded(&before, endpoint, e),
        other != endpoint,
    ensures
        after.errors().contains_key(endpoint) && after.errors()[endpoint] == e,
        after.errors().contains_key(other) == before.errors().contains_key(other),
        before.errors().contains_key(other) ==> after.errors()[other] == before.errors()[other],
{
}

/// How a connection to a key-value node is set up.
pub struct BootstrapOptions {
    pub client_name: String,
    pub disable_error_map: bool,
    pub disable_mutation_tokens: bool,
    pub disable_server_durations: bool,
    /// Whether the error map that the node sends is published.
    pub publishes_error_map: bool,
    pub tcp_keep_alive_time: Duration,
    pub auth_mechanisms: Vec<AuthMechanism>,
    pub connect_timeout: Duration,
}

/// What the connection of a bootstrap is set up with: only what a config needs.
pub fn first_client_options(client_name: &str, state: &AgentState) -> (r: BootstrapOptions)
    ensures
        r.client_name@ == client_name@,
        r.disable_error_map == state.disable_error_map,
        r.disable_mutation_tokens,
        r.disable_server_durations,
        r.publishes_error_map,
        r.tcp_keep_alive_time == state.tcp_keep_alive_time,
        r.auth_mechanisms@ == state.auth_mechanisms@,
        r.connect_timeout == state.kv_connect_timeout,
{
    let auth_mechanisms: Vec<AuthMechanism> = state.auth_mechanisms.clone();
    assert(auth_mechanisms@ =~= state.auth_mechanisms@);
    BootstrapOptions {
        client_name: owned(client_name),
        disable_error_map: state.disable_error_map,
        disable_mutation_tokens: true,
        disable_server_durations: true,
        publishes_error_map: true,
        tcp_keep_alive_time: state.tcp_keep_alive_time,
        auth_mechanisms,
        connect_timeout: state.kv_connect_timeout,
    }
}

/// How a manager of key-value connections is set up.
pub struct ManagerOptions {
    pub on_demand_connect: bool,
    pub surface_connect_errors: bool,
    pub num_pool_connections: usize,
    pub connect_throttle_period: Duration,
    pub bootstrap_options: BootstrapOptions,
    pub authenticator: Authenticator,
    pub disable_decompression: bool,
    pub selected_bucket: Option<String>,
}

/// Which operations a manager's connections serve. An operation that answers
/// with a stream holds its connection until it is done, so it gets one of its
/// own kind.
#[derive(Debug, Clone, Copy, PartialEq, Eq, Structural)]
pub enum Serves {
    Points,
    Streams,
}

/// Whether `r` is how the manager for these operations is set up. The one for
/// streams has its own number of connections, dials none before it is asked to,
/// and leaves the error map to the other.
pub open spec fn is_manager(
    r: ManagerOptions,
    serves: Serves,
    client_name: Seq<char>,
    opts: AgentOptions,
    state: AgentState,
) -> bool {
    &&& r.on_demand_connect == (serves == Serves::Streams || opts.kv_config.on_demand_connect)
    &&& r.surface_connect_errors == opts.kv_config.surface_connect_errors
    &&& r.num_pool_connections == (if serves == Serves::Streams {
        opts.kv_config.num_bulk_connections
    } else {
        state.num_pool_connections
    })
    &&& r.connect_throttle_period == opts.kv_config.connect_throttle_timeout
    &&& r.bootstrap_options.client_name@ == client_name
    &&& r.bootstrap_options.disable_error_map == state.disable_error_map
    &&& r.bootstrap_options.disable_mutation_tokens == state.disable_mutation_tokens
    &&& r.bootstrap_options.disable_server_durations == state.disable_server_durations
    &&& r.bootstrap_options.publishes_error_map == (serves == Serves::Points)
    &&& r.bootstrap_options.tcp_keep_alive_time == state.tcp_keep_alive_time
    &&& r.bootstrap_options.auth_mechanisms@ == state.auth_mechanisms@
    &&& r.bootstrap_options.connect_timeout == opts.kv_config.connect_timeout
    &&& r.authenticator == opts.authenticator
    &&& r.disable_decompression == opts.disable_decompression
    &&& r.selected_bucket == opts.bucket_name
}

/// How the manager for these operations is set up.
pub fn manager_options(
    serves: Serves,
    client_name: &str,
    opts: &AgentOptions,
    state: &AgentState,
) -> (r: ManagerOptions)
    ensures
        is_manager(r, serves, client_name@, *opts, *state),
{
    let auth_mechanisms: Vec<AuthMechanism> = state.auth_mechanisms.clone();
    assert(auth_mechanisms@ =~= state.auth_mechanisms@);
    ManagerOptions {
        on_demand_connect: serves == Serves::Streams || opts.kv_config.on_demand_connect,
        surface_connect_errors: opts.kv_config.surface_connect_errors,
        num_pool_connections: if serves == Serves::Streams {
            opts.kv_config.num_bulk_connections
        } else {
            state.num_pool_connections
        },
        connect_throttle_period: opts.kv_config.connect_throttle_timeout,
        bootstrap_options: BootstrapOptions {
            client_name: owned(client_name),
            disable_error_map: state.disable_error_map,
            disable_mutation_tokens: state.disable_mutation_tokens,
            disable_server_durations: state.disable_server_durations,
            publishes_error_map: serves == Serves::Points,
            tcp_keep_alive_time: state.tcp_keep_alive_time,
            auth_mechanisms,
            connect_timeout: opts.kv_config.connect_timeout,
        },
        authenticator: opts.authenticator.clone(),
        disable_decompression: opts.disable_decompression,
        selected_bucket: copied_option(&opts.bucket_name),
    }
}

/// One step of telling the components about a config.
#[derive(Debug, Clone, Copy, PartialEq, Eq, Structural)]
pub enum UpdateStep {
    /// Rebuild the HTTP client for new TLS settings.
    UpdateHttpTls,
    /// Give a connection manager new credentials.
    UpdateAuth(Serves),
    /// Add the new endpoints to a connection manager, and remove none.
    AddEndpoints(Serves),
    /// Route operations by the new vbucket map.
    UpdateRouting,
    ReconfigureConfigManager,
    /// Remove the endpoints that are no longer there from a connection manager.
    RemoveEndpoints(Serves),
    ReconfigureAnalytics,
    ReconfigureQuery,
    ReconfigureSearch,
    ReconfigureMgmt,
    ReconfigureIndex,
    ReconfigureDiagnostics,
    ReconfigureTracing,
    /// Let callers see the revision of the config.
    PublishRevision,
    /// Throw away every pooled connection to an indexer.
    DrainIndexPools,
}

/// Tells every component about a config. An operation picks an endpoint from
/// the routing and then a connection to it, so the endpoints are there before
/// the routing names them and until it names them no more.
pub open spec fn update_steps() -> Seq<UpdateStep> {
    seq![
        UpdateStep::AddEndpoints(Serves::Points),
        UpdateStep::AddEndpoints(Serves::Streams),
        UpdateStep::UpdateRouting,
        UpdateStep::ReconfigureConfigManager,
        UpdateStep::RemoveEndpoints(Serves::Points),
        UpdateStep::RemoveEndpoints(Serves::Streams),
        UpdateStep::ReconfigureAnalytics,
        UpdateStep::ReconfigureQuery,
        UpdateStep::ReconfigureSearch,
        UpdateStep::ReconfigureMgmt,
        UpdateStep::ReconfigureIndex,
        UpdateStep::ReconfigureDiagnostics,
        UpdateStep::ReconfigureTracing,
    ]
}

fn steps_into(steps: &mut Vec<UpdateStep>)
    ensures
        final(steps)@ == old(steps)@ + update_steps(),
{
    let ghost before = steps@;
    steps.push(UpdateStep::AddEndpoints(Serves::Points));
    steps.push(UpdateStep::AddEndpoints(Serves::Streams));
    steps.push(UpdateStep::UpdateRouting);
    steps.push(UpdateStep::ReconfigureConfigManager);
    steps.push(UpdateStep::RemoveEndpoints(Serves::Points));
    steps.push(UpdateStep::RemoveEndpoints(Serves::Streams));
    steps.push(UpdateStep::ReconfigureAnalytics);
    steps.push(UpdateStep::ReconfigureQuery);
    steps.push(UpdateStep::ReconfigureSearch);
    steps.push(UpdateStep::ReconfigureMgmt);
    steps.push(UpdateStep::ReconfigureIndex);
    steps.push(UpdateStep::ReconfigureDiagnostics);
    steps.push(UpdateStep::ReconfigureTracing);
    assert(steps@ =~= before + update_steps());
}

/// An endpoint is added before operations are routed to it, and removed only
/// after they no longer are.
pub proof fn routing_never_names_an_endpoint_that_is_not_there(serves: Serves, i: int, j: int, k: int)
    requires
        0 <= i < update_steps().len(),
        0 <= j < update_steps().len(),
        0 <= k < update_steps().len(),
        update_steps()[i] == UpdateStep::AddEndpoints(serves),
        update_steps()[j] == UpdateStep::UpdateRouting,
        update_steps()[k] == UpdateStep::RemoveEndpoints(serves),
    ensures
        i < j < k,
{
}

/// The revision of a config: the epoch before the number, which starts over
/// with each epoch.
pub open spec fn revision_of(config: ParsedConfig) -> (i64, i64) {
    (config.rev_epoch, config.rev_id)
}

/// What an agent works from.
pub struct AgentInner {
    state: AgentState,
    published: Option<(i64, i64)>,
}

/// A config that is being applied.
pub struct Applying {
    revision: (i64, i64),
}

impl Applying {
    pub closed spec fn revision(&self) -> (i64, i64) {
        self.revision
    }
}

/// What a new identity or new TLS settings are.
pub struct ReconfigureAgentOptions {
    pub tls_config: Option<TlsConfig>,
    pub authenticator: Authenticator,
}

impl AgentInner {
    pub closed spec fn state(&self) -> AgentState {
        self.state
    }

    pub closed spec fn published(&self) -> Option<(i64, i64)> {
        self.published
    }

    /// An agent that has its first config, which was reached over
    /// `network_type`.
    pub fn new(state: AgentState, first_config: ParsedConfig, network_type: String) -> (r: Self)
        ensures
            r.state() == (AgentState { latest_config: first_config, network_type, ..state }),
            r.published() == Some(revision_of(first_config)),
    {
        let published: (i64, i64) = (first_config.rev_epoch, first_config.rev_id);
        let mut state: AgentState = state;
        state.latest_config = first_config;
        state.network_type = network_type;
        AgentInner { state, published: Some(published) }
    }

    /// What each component is told of the config in use.
    pub fn component_configs(&self) -> (r: AgentComponentConfigs)
        ensures
            crate::componentconfigs::is_generated(
                r,
                self.state().latest_config,
                self.state().network_type@,
                self.state().tls_config,
                self.state().bucket,
                self.state().authenticator,
            ),
    {
        AgentComponentConfigs::gen_from_config(
            &self.state.latest_config,
            self.state.network_type.as_str(),
            self.state.tls_config,
            copied_option(&self.state.bucket),
            self.state.authenticator.clone(),
        )
    }

    /// Takes a new config. The steps tell the components of it; the last of
    /// them is [`AgentInner::publish`], because a revision that is seen before
    /// the routing has changed would be taken for that of the old routing.
    pub fn apply_config(&mut self, config: ParsedConfig) -> (r: (Applying, Vec<UpdateStep>))
        ensures
            final(self).state() == (AgentState { latest_config: config, ..old(self).state() }),
            final(self).published() == old(self).published(),
            r.0.revision() == revision_of(config),
            r.1@ == update_steps().push(UpdateStep::PublishRevision),
    {
        let revision: (i64, i64) = (config.rev_epoch, config.rev_id);
        self.state.latest_config = config;
        let mut steps: Vec<UpdateStep> = Vec::new();
        steps_into(&mut steps);
        steps.push(UpdateStep::PublishRevision);
        assert(steps@ =~= update_steps().push(UpdateStep::PublishRevision));
        (Applying { revision }, steps)
    }

    /// Lets callers see the revision of the config that was applied.
    pub fn publish(&mut self, applied: Applying)
        ensures
            final(self).state() == old(self).state(),
            final(self).published() == Some(applied.revision()),
    {
        self.published = Some(applied.revision);
    }

    /// The epoch and number of the config that was applied last.
    pub fn config_revision(&self) -> (r: Option<(i64, i64)>)
        ensures
            r == self.published(),
    {
        self.published
    }

    /// Takes new credentials and TLS settings. This is the only thing that
    /// changes what a connection to an indexer authenticates with, so their
    /// pools are drained, behind everything else: what replaces them is made
    /// with the new credentials.
    pub fn reconfigure(&mut self, opts: ReconfigureAgentOptions) -> (r: Vec<UpdateStep>)
        ensures
            final(self).state() == (AgentState {
                tls_config: opts.tls_config,
                authenticator: opts.authenticator,
                ..old(self).state()
            }),
            final(self).published() == old(self).published(),
            r@ == seq![
                UpdateStep::UpdateHttpTls,
                UpdateStep::UpdateAuth(Serves::Points),
                UpdateStep::UpdateAuth(Serves::Streams),
            ] + update_steps() + seq![UpdateStep::DrainIndexPools],
    {
        self.state.tls_config = opts.tls_config;
        self.state.authenticator = opts.authenticator;
        let mut steps: Vec<UpdateStep> = Vec::new();
        steps.push(UpdateStep::UpdateHttpTls);
        steps.push(UpdateStep::UpdateAuth(Serves::Points));
        steps.push(UpdateStep::UpdateAuth(Serves::Streams));
        assert(steps@ =~= seq![
            UpdateStep::UpdateHttpTls,
            UpdateStep::UpdateAuth(Serves::Points),
            UpdateStep::UpdateAuth(Serves::Streams),
        ]);
        let ghost first = steps@;
        steps_into(&mut steps);
        steps.push(UpdateStep::DrainIndexPools);
        assert(steps@ =~= first + update_steps() + seq![UpdateStep::DrainIndexPools]);
        steps
    }

    /// What the selected bucket can do, as far as callers can ask.
    pub fn bucket_features(&self) -> (r: Result<Vec<BucketFeature>, Error>)
        ensures
            match self.state().latest_config.bucket {
                Some(bucket) => r matches Ok(features) && features@ == known_features(
                    bucket.features@,
                ),
                None => r matches Err(e) && e.spec_kind() == ErrorKind::NoBucket
                    && e.spec_retry_info() is None,
            },
    {
        match &self.state.latest_config.bucket {
            Some(bucket) => Ok(features_of(&bucket.features)),
            None => Err(Error::from(ErrorKind::NoBucket)),
        }
    }

    pub fn get_bucket_name(&self) -> (r: Option<String>)
        ensures
            r == self.state().bucket,
    {
        copied_option(&self.state.bucket)
    }

    pub fn state_ref(&self) -> (r: &AgentState)
        ensures
            *r == self.state(),
    {
        &self.state
    }
}

/// What a caller can ask of a bucket.
#[derive(Debug, Clone, Copy, PartialEq, Eq, Structural)]
pub enum BucketFeature {
    CreateAsDeleted,
    ReplaceBodyWithXattr,
    RangeScan,
    ReplicaRead,
    NonDedupedHistory,
    ReviveDocument,
}

pub open spec fn known_feature(feature: ParsedConfigBucketFeature) -> Option<BucketFeature> {
    match feature {
        ParsedConfigBucketFeature::CreateAsDeleted => Some(BucketFeature::CreateAsDeleted),
        ParsedConfigBucketFeature::ReplaceBodyWithXattr => Some(
            BucketFeature::ReplaceBodyWithXattr,
        ),
        ParsedConfigBucketFeature::RangeScan => Some(BucketFeature::RangeScan),
        ParsedConfigBucketFeature::ReplicaRead => Some(BucketFeature::ReplicaRead),
        ParsedConfigBucketFeature::NonDedupedHistory => Some(BucketFeature::NonDedupedHistory),
        ParsedConfigBucketFeature::ReviveDocument => Some(BucketFeature::ReviveDocument),
        ParsedConfigBucketFeature::Other => None,
        ParsedConfigBucketFeature::Unknown => None,
    }
}

/// The features that callers can ask about, in the config's order.
pub open spec fn known_features(features: Seq<ParsedConfigBucketFeature>) -> Seq<BucketFeature>
    decreases features.len(),
{
    if features.len() == 0 {
        Seq::empty()
    } else {
        let before = known_features(features.drop_last());
        match known_feature(features.last()) {
            Some(feature) => before.push(feature),
            None => before,
        }
    }
}

fn features_of(features: &Vec<ParsedConfigBucketFeature>) -> (r: Vec<BucketFeature>)
    ensures
        r@ == known_features(features@),
{
    let mut r: Vec<BucketFeature> = Vec::new();
    let mut i: usize = 0;
    while i < features.len()
        invariant
            i <= features.len(),
            r@ == known_features(features@.take(i as int)),
        decreases features.len() - i,
    {
        match features[i] {
            ParsedConfigBucketFeature::CreateAsDeleted => r.push(BucketFeature::CreateAsDeleted),
            ParsedConfigBucketFeature::ReplaceBodyWithXattr => r.push(
                BucketFeature::ReplaceBodyWithXattr,
            ),
            ParsedConfigBucketFeature::RangeScan => r.push(BucketFeature::RangeScan),
            ParsedConfigBucketFeature::ReplicaRead => r.push(BucketFeature::ReplicaRead),
            ParsedConfigBucketFeature::NonDedupedHistory => r.push(
                BucketFeature::NonDedupedHistory,
            ),
            ParsedConfigBucketFeature::ReviveDocument => r.push(BucketFeature::ReviveDocument),
            ParsedConfigBucketFeature::Other => {},
            ParsedConfigBucketFeature::Unknown => {},
        }
        assert(features@.take(i + 1).drop_last() =~= features@.take(i as int));
        i += 1;
    }
    assert(features@.take(features@.len() as int) =~= features@);
    r
}

impl BucketFeature {
    pub open spec fn name(self) -> Seq<char> {
        match self {
            BucketFeature::CreateAsDeleted => "CreateAsDeleted"@,
            BucketFeature::ReplaceBodyWithXattr => "ReplaceBodyWithXattr"@,
            BucketFeature::RangeScan => "RangeScan"@,
            BucketFeature::ReplicaRead => "ReplicaRead"@,
            BucketFeature::NonDedupedHistory => "NonDedupedHistory"@,
            BucketFeature::ReviveDocument => "ReviveDocument"@,
        }
    }

    fn text(self) -> (r: &'static str)
        ensures
            r@ == self.name(),
    {
        match self {
            BucketFeature::CreateAsDeleted => "CreateAsDeleted",
            BucketFeature::ReplaceBodyWithXattr => "ReplaceBodyWithXattr",
            BucketFeature::RangeScan => "RangeScan",
            BucketFeature::ReplicaRead => "ReplicaRead",
            BucketFeature::NonDedupedHistory => "NonDedupedHistory",
            BucketFeature::ReviveDocument => "ReviveDocument",
        }
    }
}

/// Whether an operation that needs a feature may go ahead, from what the bucket
/// can do.
pub fn bucket_feature_check(
    found: Result<Vec<BucketFeature>, Error>,
    feature: BucketFeature,
    message: &str,
) -> (r: Result<(), Error>)
    ensures
        match found {
            Ok(features) => if features@.contains(feature) {
                r is Ok
            } else {
                r matches Err(e) && (e.spec_kind() matches ErrorKind::FeatureNotAvailable {
                    feature: name,
                    msg,
                } && name@ == feature.name() && msg@ == message@) && e.spec_retry_info() is None
            },
            Err(e) => r == Err::<(), Error>(e),
        },
{
    let features: Vec<BucketFeature> = match found {
        Ok(features) => features,
        Err(e) => {
            return Err(e);
        },
    };
    let mut i: usize = 0;
    while i < features.len()
        invariant
            i <= features.len(),
            found == Ok::<Vec<BucketFeature>, Error>(features),
            forall|j: int| 0 <= j < i ==> features@[j] != feature,
        decreases features.len() - i,
    {
        if features[i] == feature {
            assert(features@[i as int] == feature);
            return Ok(());
        }
        i += 1;
    }
    Err(Error::new_feature_not_available_error(feature.text(), message))
}

/// The number that eight bytes stand for, the highest first.
pub open spec fn big_endian(bytes: Seq<u8>) -> nat
    decreases bytes.len(),
{
    if bytes.len() == 0 {
        0
    } else {
        big_endian(bytes.drop_last()) * 256 + bytes.last() as nat
    }
}

/// The signed number that eight bytes stand for.
pub open spec fn signed(n: nat) -> int {
    if n < 0x8000_0000_0000_0000 {
        n as int
    } else {
        n - 0x1_0000_0000_0000_0000
    }
}

/// The epoch and number of a config that a node pushes. Only a push has them,
/// in the first sixteen bytes of its extras.
pub open spec fn pushed(op_code: OpCode, extras: Option<Seq<u8>>) -> Option<(int, int)> {
    match extras {
        Some(extras) => if op_code == OpCode::SetKey && extras.len() >= 16 {
            Some(
                (
                    signed(big_endian(extras.subrange(0, 8))),
                    signed(big_endian(extras.subrange(8, 16))),
                ),
            )
        } else {
            None
        },
        None => None,
    }
}

/// Reads what a node pushed of its own accord: the epoch and number of a config
/// that it has.
pub fn pushed_revision(op_code: OpCode, extras: Option<&[u8]>) -> (r: Option<(i64, i64)>)
    ensures
        ({
            let expected = pushed(
                op_code,
                match extras {
                    Some(e) => Some(e@),
                    None => None,
                },
            );
            match r {
                Some((epoch, id)) => expected == Some((epoch as int, id as int)),
                None => expected is None,
            }
        }),
{
    if op_code != OpCode::SetKey {
        return None;
    }
    match extras {
        Some(extras) => {
            if extras.len() < 16 {
                return None;
            }
            Some((i64_at(extras, 0), i64_at(extras, 8)))
        },
        None => None,
    }
}

fn i64_at(bytes: &[u8], from: usize) -> (r: i64)
    requires
        from + 8 <= bytes@.len(),
    ensures
        r == signed(big_endian(bytes@.subrange(from as int, from + 8))),
{
    let ghost all = bytes@.subrange(from as int, from + 8);
    let len: usize = bytes.len();
    let mut n: u64 = 0;
    let mut i: usize = 0;
    while i < 8
        invariant
            i <= 8,
            from + 8 <= len == bytes@.len(),
            all == bytes@.subrange(from as int, from + 8),
            n == big_endian(all.take(i as int)),
            i == 0 ==> n == 0,
            i == 1 ==> n < 0x100,
            i == 2 ==> n < 0x1_0000,
            i == 3 ==> n < 0x100_0000,
            i == 4 ==> n < 0x1_0000_0000,
            i == 5 ==> n < 0x100_0000_0000,
            i == 6 ==> n < 0x1_0000_0000_0000,
            i == 7 ==> n < 0x100_0000_0000_0000,
        decreases 8 - i,
    {
        assert(all.take(i + 1).drop_last() =~= all.take(i as int));
        assert(all.take(i + 1).last() == bytes@[from + i]);
        n = n * 256 + bytes[from + i] as u64;
        i += 1;
    }
    assert(all.take(8) =~= all);
    if n < 0x8000_0000_0000_0000 {
        n as i64
    } else {
        -((u64::MAX - n) as i64) - 1
    }
}

/// What a node's own config is worth where it could not be asked for: `None`
/// where it cannot be read, which leaves everything as it was.
pub fn readable_config(config: TerseConfig, source_hostname: &str) -> (r: Option<ParsedConfig>)
    ensures
        r is None <==> has_empty_map(config),
        r matches Some(parsed) ==> is_parsed(parsed, config, source_hostname@),
{
    match ConfigParser::parse_terse_config(config, source_hostname) {
        Ok(parsed) => Some(parsed),
        Err(_) => None,
    }
}

/// Where each service that speaks HTTP is.
pub struct ServiceEndpoints {
    pub mgmt: Vec<String>,
    pub query: Vec<String>,
    pub search: Vec<String>,
    pub analytics: Vec<String>,
    pub index: Vec<String>,
}

impl Default for ServiceEndpoints {
    fn default() -> (r: ServiceEndpoints)
        ensures
            r.mgmt@.len() == 0,
            r.query@.len() == 0,
            r.search@.len() == 0,
            r.analytics@.len() == 0,
            r.index@.len() == 0,
    {
        ServiceEndpoints {
            mgmt: Vec::new(),
            query: Vec::new(),
            search: Vec::new(),
            analytics: Vec::new(),
            index: Vec::new(),
        }
    }
}

impl ServiceEndpoints {
    /// The list that answers for a service. One without such a list has nothing
    /// to talk to, which is no error.
    pub open spec fn of(&self, service: ServiceType) -> Seq<String> {
        match service {
            ServiceType::MGMT => self.mgmt@,
            ServiceType::QUERY => self.query@,
            ServiceType::SEARCH => self.search@,
            ServiceType::ANALYTICS => self.analytics@,
            ServiceType::INDEX => self.index@,
            _ => Seq::empty(),
        }
    }
}

fn copied_texts(v: &Vec<String>) -> (r: Vec<String>)
    ensures
        r@ == v@,
{
    let mut r: Vec<String> = Vec::new();
    let mut i: usize = 0;
    while i < v.len()
        invariant
            i <= v.len(),
            r@ == v@.take(i as int),
        decreases v.len() - i,
    {
        r.push(v[i].clone());
        assert(v@.take(i + 1) =~= v@.take(i as int).push(v@[i as int]));
        i += 1;
    }
    assert(v@.take(v@.len() as int) =~= v@);
    r
}

/// The endpoints of a service.
pub fn endpoints_for(endpoints: &ServiceEndpoints, service: ServiceType) -> (r: Vec<String>)
    ensures
        r@ == endpoints.of(service),
{
    match service {
        ServiceType::MGMT => copied_texts(&endpoints.mgmt),
        ServiceType::QUERY => copied_texts(&endpoints.query),
        ServiceType::SEARCH => copied_texts(&endpoints.search),
        ServiceType::ANALYTICS => copied_texts(&endpoints.analytics),
        ServiceType::INDEX => copied_texts(&endpoints.index),
        _ => Vec::new(),
    }
}

/// Who names no keep-alive time gets a minute.
pub proof fn a_connection_is_kept_alive_by_the_minute(given: Option<Duration>, d: Duration)
    requires
        is_keep_alive(given, d),
    ensures
        given matches Some(given) ==> d == given,
        given is None ==> nanos_in(d) == 60_000_000_000,
{
}

/// A password that anyone could read is warned of, and never over TLS. A scheme
/// that hides what TLS hides already is warned of, and never without it.
pub proof fn a_warning_is_about_the_connection_at_hand(mechanisms: Seq<AuthMechanism>, i: int)
    requires
        0 <= i < mechanisms.len(),
    ensures
        mechanisms[i] == AuthMechanism::Plain ==> warning_of(mechanisms, false) == Some(
            MechanismWarning::PlainWithoutTls,
        ),
        mechanisms[i] != AuthMechanism::Plain ==> warning_of(mechanisms, true) == Some(
            MechanismWarning::ScramOverTls,
        ),
        warning_of(mechanisms, true) != Some(MechanismWarning::PlainWithoutTls),
        warning_of(mechanisms, false) != Some(MechanismWarning::ScramOverTls),
        mechanisms.len() == 1 && mechanisms[i] == AuthMechanism::Plain ==> warning_of(
            mechanisms,
            true,
        ) is None,
        mechanisms.len() == 1 && mechanisms[i] != AuthMechanism::Plain ==> warning_of(
            mechanisms,
            false,
        ) is None,
{
    assert(mechanisms.contains(mechanisms[i]));
}

/// A network is named by any text but the empty one and `auto`.
pub proof fn a_network_is_named_unless_it_is_left_open(network: String)
    ensures
        !is_named_network(None),
        is_named_network(Some(network)) <==> network@ != seq!['a', 'u', 't', 'o'] && network@
            != Seq::<char>::empty(),
{
    reveal_strlit("auto");
    assert("auto"@ =~= seq!['a', 'u', 't', 'o']);
    if network@.len() == 0 {
        assert(network@ =~= Seq::<char>::empty());
    }
}

proof fn lemma_seed(addrs: Seq<Address>, tls_config: Option<TlsConfig>, i: int)
    requires
        0 <= i < addrs.len(),
    ensures
        first_targets(addrs, tls_config).dom().contains("kv-"@ + addrs[i].text()),
    decreases addrs.len(),
{
    if i < addrs.len() - 1 {
        lemma_seed(addrs.drop_last(), tls_config, i);
    }
}

proof fn lemma_seed_of(addrs: Seq<Address>, tls_config: Option<TlsConfig>, key: Seq<char>) -> (i:
    int)
    requires
        first_targets(addrs, tls_config).dom().contains(key),
    ensures
        0 <= i < addrs.len(),
        key == "kv-"@ + addrs[i].text(),
        first_targets(addrs, tls_config)[key] == (KvTarget {
            address: addrs[i],
            tls_config,
            canonical_address: addrs[i],
        }),
    decreases addrs.len(),
{
    if key == "kv-"@ + addrs.last().text() {
        addrs.len() - 1
    } else {
        lemma_seed_of(addrs.drop_last(), tls_config, key)
    }
}

/// Every key-value seed is asked for the first config, under its own address
/// and with the TLS settings of the agent.
pub proof fn every_seed_is_asked_at_its_own_address(
    addrs: Seq<Address>,
    tls_config: Option<TlsConfig>,
    i: int,
) -> (target: KvTarget)
    requires
        0 <= i < addrs.len(),
    ensures
        first_targets(addrs, tls_config).contains_value(target),
        target.tls_config == tls_config,
        target.address == target.canonical_address,
        addrs.contains(target.address),
        target.address.host@ + seq![':'] + decimal(target.address.port as nat) == addrs[i].host@
            + seq![':'] + decimal(addrs[i].port as nat),
{
    let key = "kv-"@ + addrs[i].text();
    lemma_seed(addrs, tls_config, i);
    let j = lemma_seed_of(addrs, tls_config, key);
    reveal_strlit(":");
    assert(":"@ =~= seq![':']);
    assert(addrs[j].text() =~= key.skip("kv-"@.len() as int));
    assert(addrs[i].text() =~= key.skip("kv-"@.len() as int));
    assert(addrs.contains(addrs[j]));
    first_targets(addrs, tls_config)[key]
}

/// No node is asked for the first config but a seed.
pub proof fn only_seeds_are_asked(
    addrs: Seq<Address>,
    tls_config: Option<TlsConfig>,
    key: Seq<char>,
)
    requires
        first_targets(addrs, tls_config).dom().contains(key),
    ensures
        addrs.contains(first_targets(addrs, tls_config)[key].address),
        first_targets(addrs, tls_config)[key].tls_config == tls_config,
{
    let i = lemma_seed_of(addrs, tls_config, key);
    assert(addrs.contains(addrs[i]));
}

proof fn lemma_management_seed(
    addrs: Seq<Address>,
    client_name: Seq<char>,
    state: AgentState,
    i: int,
)
    requires
        0 <= i < addrs.len(),
    ensures
        first_endpoints(addrs, client_name, state).dom().contains("mgmt"@ + addrs[i].text()),
        first_endpoints(addrs, client_name, state)["mgmt"@ + addrs[i].text()] == (FirstHttpView {
            endpoint: seed_url(state.tls_config is Some, addrs[i]),
            tls: state.tls_config,
            user_agent: client_name,
            authenticator: state.authenticator,
            bucket_name: state.bucket,
        }),
    decreases addrs.len(),
{
    let key = "mgmt"@ + addrs[i].text();
    let last = "mgmt"@ + addrs.last().text();
    if key == last {
        assert(addrs[i].text() =~= key.skip("mgmt"@.len() as int));
        assert(addrs.last().text() =~= last.skip("mgmt"@.len() as int));
    } else {
        lemma_management_seed(addrs.drop_last(), client_name, state, i);
    }
}

/// Every management seed is asked at its own address: over `https` where the
/// agent uses TLS, and over `http` where it does not. It is asked as the agent,
/// for the agent's bucket.
pub proof fn every_management_seed_is_asked_at_its_own_url(
    addrs: Seq<Address>,
    client_name: Seq<char>,
    state: AgentState,
    i: int,
) -> (endpoint: FirstHttpView)
    requires
        0 <= i < addrs.len(),
    ensures
        first_endpoints(addrs, client_name, state).contains_value(endpoint),
        endpoint.endpoint == (if state.tls_config is Some {
            "https://"@
        } else {
            "http://"@
        }) + addrs[i].host@ + ":"@ + decimal(addrs[i].port as nat),
        endpoint.tls == state.tls_config,
        endpoint.user_agent == client_name,
        endpoint.authenticator == state.authenticator,
        endpoint.bucket_name == state.bucket,
{
    lemma_management_seed(addrs, client_name, state, i);
    let endpoint = first_endpoints(addrs, client_name, state)["mgmt"@ + addrs[i].text()];
    reveal_strlit("https");
    reveal_strlit("http");
    reveal_strlit("://");
    reveal_strlit("https://");
    reveal_strlit("http://");
    assert("https"@ + "://"@ =~= "https://"@);
    assert("http"@ + "://"@ =~= "http://"@);
    assert(endpoint.endpoint =~= (if state.tls_config is Some {
        "https://"@
    } else {
        "http://"@
    }) + addrs[i].host@ + ":"@ + decimal(addrs[i].port as nat));
    endpoint
}

/// What an agent proves its identity with is what it was given: a name and a
/// password, or a token. A certificate is no header, so both are empty.
pub proof fn a_bootstrap_presents_what_the_agent_has(r: Auth, authenticator: Authenticator)
    requires
        is_bootstrap_auth(r, authenticator),
    ensures
        r is BearerAuth <==> authenticator is JwtAuthenticator,
        authenticator matches Authenticator::PasswordAuthenticator(a) ==> r->username@
            == a.username@ && r->password@ == a.password@,
        authenticator is CertificateAuthenticator ==> r->username@.len() == 0
            && r->password@.len() == 0,
        authenticator matches Authenticator::JwtAuthenticator(a) ==> r->token@ == a.token@,
{
}

/// The two managers are set up alike but for what the streams have their own
/// way: the number of their connections, when they dial, and that they leave
/// the error map to the other.
pub proof fn the_two_managers_differ_where_streams_do(
    points: ManagerOptions,
    streams: ManagerOptions,
    client_name: Seq<char>,
    opts: AgentOptions,
    state: AgentState,
)
    requires
        is_manager(points, Serves::Points, client_name, opts, state),
        is_manager(streams, Serves::Streams, client_name, opts, state),
    ensures
        streams.on_demand_connect,
        points.on_demand_connect == opts.kv_config.on_demand_connect,
        streams.num_pool_connections == opts.kv_config.num_bulk_connections,
        points.num_pool_connections == state.num_pool_connections,
        points.bootstrap_options.publishes_error_map,
        !streams.bootstrap_options.publishes_error_map,
        points.surface_connect_errors == opts.kv_config.surface_connect_errors,
        streams.surface_connect_errors == opts.kv_config.surface_connect_errors,
        points.connect_throttle_period == streams.connect_throttle_period,
        points.connect_throttle_period == opts.kv_config.connect_throttle_timeout,
        points.bootstrap_options.connect_timeout == streams.bootstrap_options.connect_timeout,
        points.bootstrap_options.connect_timeout == opts.kv_config.connect_timeout,
        points.bootstrap_options.client_name@ == client_name,
        streams.bootstrap_options.client_name@ == client_name,
        points.bootstrap_options.disable_error_map == state.disable_error_map,
        streams.bootstrap_options.disable_error_map == state.disable_error_map,
        points.bootstrap_options.disable_mutation_tokens == state.disable_mutation_tokens,
        streams.bootstrap_options.disable_mutation_tokens == state.disable_mutation_tokens,
        points.bootstrap_options.disable_server_durations == state.disable_server_durations,
        streams.bootstrap_options.disable_server_durations == state.disable_server_durations,
        points.bootstrap_options.tcp_keep_alive_time == state.tcp_keep_alive_time,
        streams.bootstrap_options.tcp_keep_alive_time == state.tcp_keep_alive_time,
        points.bootstrap_options.auth_mechanisms@ == state.auth_mechanisms@,
        streams.bootstrap_options.auth_mechanisms@ == state.auth_mechanisms@,
        points.authenticator == streams.authenticator,
        points.authenticator == opts.authenticator,
        points.disable_decompression == streams.disable_decompression,
        points.disable_decompression == opts.disable_decompression,
        points.selected_bucket == streams.selected_bucket,
        points.selected_bucket == opts.bucket_name,
{
}

/// A config is told to every component that is made from one, and to each once.
/// Telling them publishes nothing and drains nothing.
pub proof fn every_component_is_told_of_a_config_once(serves: Serves)
    ensures
        update_steps().no_duplicates(),
        update_steps().len() == 13,
        update_steps().contains(UpdateStep::AddEndpoints(serves)),
        update_steps().contains(UpdateStep::RemoveEndpoints(serves)),
        update_steps().contains(UpdateStep::UpdateRouting),
        update_steps().contains(UpdateStep::ReconfigureConfigManager),
        update_steps().contains(UpdateStep::ReconfigureAnalytics),
        update_steps().contains(UpdateStep::ReconfigureQuery),
        update_steps().contains(UpdateStep::ReconfigureSearch),
        update_steps().contains(UpdateStep::ReconfigureMgmt),
        update_steps().contains(UpdateStep::ReconfigureIndex),
        update_steps().contains(UpdateStep::ReconfigureDiagnostics),
        update_steps().contains(UpdateStep::ReconfigureTracing),
        !update_steps().contains(UpdateStep::PublishRevision),
        !update_steps().contains(UpdateStep::DrainIndexPools),
{
    let steps = update_steps();
    assert(steps[if serves == Serves::Points {
        0int
    } else {
        1int
    }] == UpdateStep::AddEndpoints(serves));
    assert(steps[2] == UpdateStep::UpdateRouting);
    assert(steps[3] == UpdateStep::ReconfigureConfigManager);
    assert(steps[if serves == Serves::Points {
        4int
    } else {
        5int
    }] == UpdateStep::RemoveEndpoints(serves));
    assert(steps[6] == UpdateStep::ReconfigureAnalytics);
    assert(steps[7] == UpdateStep::ReconfigureQuery);
    assert(steps[8] == UpdateStep::ReconfigureSearch);
    assert(steps[9] == UpdateStep::ReconfigureMgmt);
    assert(steps[10] == UpdateStep::ReconfigureIndex);
    assert(steps[11] == UpdateStep::ReconfigureDiagnostics);
    assert(steps[12] == UpdateStep::ReconfigureTracing);
}

/// A revision is an epoch and the number within it, in that order.
pub proof fn a_revision_is_an_epoch_before_a_number(config: ParsedConfig)
    ensures
        revision_of(config).0 == config.rev_epoch,
        revision_of(config).1 == config.rev_id,
{
}

proof fn lemma_known(features: Seq<ParsedConfigBucketFeature>, feature: BucketFeature)
    ensures
        known_features(features).contains(feature) <==> exists|i: int|
            0 <= i < features.len() && known_feature(#[trigger] features[i]) == Some(feature),
    decreases features.len(),
{
    if features.len() > 0 {
        let before = features.drop_last();
        lemma_known(before, feature);
        let known = known_features(before);
        let all = known_features(features);
        if all.contains(feature) {
            let k = choose|k: int| 0 <= k < all.len() && all[k] == feature;
            if k < known.len() {
                assert(known[k] == feature);
                assert(known.contains(feature));
                let i = choose|i: int|
                    0 <= i < before.len() && known_feature(#[trigger] before[i]) == Some(feature);
                assert(features[i] == before[i]);
            } else {
                assert(known_feature(features[features.len() - 1]) == Some(feature));
            }
        }
        if exists|i: int|
            0 <= i < features.len() && known_feature(#[trigger] features[i]) == Some(feature) {
            let i = choose|i: int|
                0 <= i < features.len() && known_feature(#[trigger] features[i]) == Some(feature);
            if i < before.len() {
                assert(before[i] == features[i]);
                assert(known.contains(feature));
                let k = choose|k: int| 0 <= k < known.len() && known[k] == feature;
                assert(all[k] == feature);
            } else {
                assert(all[all.len() - 1] == feature);
            }
        }
    }
}

/// A caller is told of a feature exactly where the bucket's config lists it.
pub proof fn a_feature_is_offered_where_the_bucket_has_it(features: Seq<ParsedConfigBucketFeature>)
    ensures
        known_features(features).contains(BucketFeature::CreateAsDeleted) <==> features.contains(
            ParsedConfigBucketFeature::CreateAsDeleted,
        ),
        known_features(features).contains(BucketFeature::ReplaceBodyWithXattr)
            <==> features.contains(ParsedConfigBucketFeature::ReplaceBodyWithXattr),
        known_features(features).contains(BucketFeature::RangeScan) <==> features.contains(
            ParsedConfigBucketFeature::RangeScan,
        ),
        known_features(features).contains(BucketFeature::ReplicaRead) <==> features.contains(
            ParsedConfigBucketFeature::ReplicaRead,
        ),
        known_features(features).contains(BucketFeature::NonDedupedHistory) <==> features.contains(
            ParsedConfigBucketFeature::NonDedupedHistory,
        ),
        known_features(features).contains(BucketFeature::ReviveDocument) <==> features.contains(
            ParsedConfigBucketFeature::ReviveDocument,
        ),
{
    lemma_known(features, BucketFeature::CreateAsDeleted);
    lemma_known(features, BucketFeature::ReplaceBodyWithXattr);
    lemma_known(features, BucketFeature::RangeScan);
    lemma_known(features, BucketFeature::ReplicaRead);
    lemma_known(features, BucketFeature::NonDedupedHistory);
    lemma_known(features, BucketFeature::ReviveDocument);
}

/// A feature goes by the name of its variant.
pub proof fn a_feature_goes_by_its_name(feature: BucketFeature)
    ensures
        feature.name() == (match feature {
            BucketFeature::CreateAsDeleted => "CreateAsDeleted"@,
            BucketFeature::ReplaceBodyWithXattr => "ReplaceBodyWithXattr"@,
            BucketFeature::RangeScan => "RangeScan"@,
            BucketFeature::ReplicaRead => "ReplicaRead"@,
            BucketFeature::NonDedupedHistory => "NonDedupedHistory"@,
            BucketFeature::ReviveDocument => "ReviveDocument"@,
        }),
{
}

/// Eight bytes as a number, the first of them the highest.
proof fn lemma_eight_bytes(b: Seq<u8>)
    requires
        b.len() == 8,
    ensures
        big_endian(b) == b[0] * 0x100_0000_0000_0000 + b[1] * 0x1_0000_0000_0000 + b[2]
            * 0x100_0000_0000 + b[3] * 0x1_0000_0000 + b[4] * 0x100_0000 + b[5] * 0x1_0000 + b[6]
            * 0x100 + b[7],
{
    assert(big_endian(b.take(0)) == 0);
    assert(b.take(1).drop_last() =~= b.take(0));
    assert(b.take(2).drop_last() =~= b.take(1));
    assert(b.take(3).drop_last() =~= b.take(2));
    assert(b.take(4).drop_last() =~= b.take(3));
    assert(b.take(5).drop_last() =~= b.take(4));
    assert(b.take(6).drop_last() =~= b.take(5));
    assert(b.take(7).drop_last() =~= b.take(6));
    assert(b.take(8).drop_last() =~= b.take(7));
    assert(b.take(8) =~= b);
    assert(big_endian(b.take(1)) == b[0]);
    assert(big_endian(b.take(2)) == big_endian(b.take(1)) * 256 + b[1]);
    assert(big_endian(b.take(3)) == big_endian(b.take(2)) * 256 + b[2]);
    assert(big_endian(b.take(4)) == big_endian(b.take(3)) * 256 + b[3]);
    assert(big_endian(b.take(5)) == big_endian(b.take(4)) * 256 + b[4]);
    assert(big_endian(b.take(6)) == big_endian(b.take(5)) * 256 + b[5]);
    assert(big_endian(b.take(7)) == big_endian(b.take(6)) * 256 + b[6]);
    assert(big_endian(b.take(8)) == big_endian(b.take(7)) * 256 + b[7]);
}

/// A node pushes a revision with sixteen bytes at least: the epoch in the first
/// eight and the number in the next eight, each with its highest byte first and
/// negative where that byte's highest bit is set. Nothing else is a push.
pub proof fn a_push_is_an_epoch_and_a_number(op_code: OpCode, extras: Seq<u8>)
    ensures
        pushed(op_code, None) is None,
        pushed(op_code, Some(extras)) is Some <==> op_code == OpCode::SetKey && extras.len() >= 16,
        pushed(op_code, Some(extras)) matches Some((epoch, id)) ==> {
            &&& epoch == extras[0] * 0x100_0000_0000_0000 + extras[1] * 0x1_0000_0000_0000
                + extras[2] * 0x100_0000_0000 + extras[3] * 0x1_0000_0000 + extras[4] * 0x100_0000
                + extras[5] * 0x1_0000 + extras[6] * 0x100 + extras[7] - (if extras[0] >= 0x80 {
                0x1_0000_0000_0000_0000int
            } else {
                0
            })
            &&& id == extras[8] * 0x100_0000_0000_0000 + extras[9] * 0x1_0000_0000_0000
                + extras[10] * 0x100_0000_0000 + extras[11] * 0x1_0000_0000 + extras[12]
                * 0x100_0000 + extras[13] * 0x1_0000 + extras[14] * 0x100 + extras[15] - (
            if extras[8] >= 0x80 {
                0x1_0000_0000_0000_0000int
            } else {
                0
            })
        },
{
    if extras.len() >= 16 {
        lemma_eight_bytes(extras.subrange(0, 8));
        lemma_eight_bytes(extras.subrange(8, 16));
    }
}

/// Each service that speaks HTTP is reached at its own endpoints, and the
/// others at none.
pub proof fn a_service_has_its_own_endpoints(endpoints: ServiceEndpoints)
    ensures
        endpoints.of(ServiceType::MGMT) == endpoints.mgmt@,
        endpoints.of(ServiceType::QUERY) == endpoints.query@,
        endpoints.of(ServiceType::SEARCH) == endpoints.search@,
        endpoints.of(ServiceType::ANALYTICS) == endpoints.analytics@,
        endpoints.of(ServiceType::INDEX) == endpoints.index@,
        endpoints.of(ServiceType::MEMD).len() == 0,
        endpoints.of(ServiceType::EVENTING).len() == 0,
{
}

/// A node that could not be reached in time is recorded as such, with how long
/// was waited for it. What it said itself is recorded as it said it.
pub proof fn a_failure_is_recorded_as_it_came(attempt: KvAttempt, timeout: Duration, e: Error)
    requires
        is_kv_failure(attempt, timeout, e),
    ensures
        attempt matches KvAttempt::NotConnected(cause) ==> e == cause,
        attempt is TimedOut ==> (e.spec_kind() matches ErrorKind::Message { msg } && msg@
            == "timed out connecting to endpoint after "@ + duration_text(timeout)),
        attempt matches KvAttempt::NoConfig(cause) ==> e.spec_kind() == ErrorKind::Memdx(cause),
        attempt is Config ==> e.spec_kind() == ErrorKind::NoVbucketMap,
        !(attempt is NotClosed),
        !(attempt is NotConnected) ==> e.spec_retry_info() is None,
{
}

/// A search asks every key-value node in turn and then every management
/// endpoint; what fails is recorded and the next one's turn comes, and nothing
/// of the search itself changes.
pub proof fn endpoints_are_asked_in_turn(
    before: Bootstrap,
    after: Bootstrap,
    endpoint: Seq<char>,
    e: Error,
)
    requires
        after.recorded(&before, endpoint, e),
    ensures
        before.asks_kv() <==> before.kv_asked() < before.kv().len(),
        before.asks_http() <==> before.kv_asked() >= before.kv().len() && before.http_asked()
            < before.http().len(),
        before.asks_kv() ==> after.kv_asked() == before.kv_asked() + 1 && after.http_asked()
            == before.http_asked(),
        !before.asks_kv() ==> after.http_asked() == before.http_asked() + 1 && after.kv_asked()
            == before.kv_asked(),
        after.kv() == before.kv(),
        after.http() == before.http(),
        after.surfaces() == before.surfaces(),
        after.timeout() == before.timeout(),
{
}

} // verus!
