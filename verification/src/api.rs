//! What the JSON API answers, computed from the service's state.
use vstd::prelude::*;
use crate::config::{ServerInfo, StatusSection};
use crate::cutover::{format_cutover_times, format_utc, pair_texts, utc_text, zone_spec, zone_value, ZONE_COUNT};
use crate::health::{ContainerHealth, HealthMap};
use crate::migration::MigrationState;
use crate::name_map::NameMap;
use crate::phase::{Phase, api_name_of, cutover_fits, phase_of, compute_phase_at, NS_PER_S, TEARDOWN_OFFSET_NS};
use crate::text::{chars_of, has_prefix, is_digit, owned, strip_prefix};

verus! {

/// `https` with TLS, `http` without.
pub open spec fn scheme_of(use_tls: bool) -> Seq<char> {
    if use_tls {
        "https"@
    } else {
        "http"@
    }
}

/// The URL scheme the server is reached by.
pub fn scheme(use_tls: bool) -> (s: &'static str)
    ensures
        s@ == scheme_of(use_tls),
{
    if use_tls {
        "https"
    } else {
        "http"
    }
}

/// `scheme://host.domain`.
pub open spec fn site(scheme: Seq<char>, host: Seq<char>, domain: Seq<char>) -> Seq<char> {
    scheme + "://"@ + host + "."@ + domain
}

/// `scheme://host.domain`.
pub fn site_url(scheme: &str, host: &str, domain: &str) -> (u: String)
    ensures
        u@ == site(scheme@, host@, domain@),
{
    let mut u = owned(scheme);
    u.append("://");
    u.append(host);
    u.append(".");
    u.append(domain);
    u
}

/// The texts of a map of strings.
pub open spec fn text_map(m: Map<Seq<char>, String>) -> Map<Seq<char>, Seq<char>> {
    m.map_values(|s: String| s@)
}

/// Where the nodes' APIs are reached.
pub open spec fn endpoints_of(domain: Seq<char>, use_tls: bool) -> Map<Seq<char>, Seq<char>> {
    let s = scheme_of(use_tls);
    Map::empty().insert("xmtpd"@, site(s, "xnet-100"@, domain)).insert("node_go"@, site(s, "node-go"@, domain)).insert(
        "gateway"@,
        site(s, "gateway"@, domain),
    )
}

/// Where the dashboards are reached.
pub open spec fn dashboards_of(domain: Seq<char>, use_tls: bool) -> Map<Seq<char>, Seq<char>> {
    let s = scheme_of(use_tls);
    Map::empty().insert("grafana"@, site(s, "grafana"@, domain)).insert(
        "prometheus"@,
        site(s, "prometheus"@, domain),
    ).insert("otterscan"@, site(s, "otterscan"@, domain))
}

fn insert_site(m: &mut NameMap<String>, key: &str, scheme: &str, host: &str, domain: &str)
    requires
        old(m).wf(),
    ensures
        final(m).wf(),
        text_map(final(m)@) == text_map(old(m)@).insert(key@, site(scheme@, host@, domain@)),
{
    let u = site_url(scheme, host, domain);
    let ghost uv = u@;
    m.insert(owned(key), u);
    assert(text_map(m@) =~= text_map(old(m)@).insert(key@, uv));
}

/// The node API addresses of the status response.
pub fn build_endpoints(domain: &str, use_tls: bool) -> (m: NameMap<String>)
    ensures
        m.wf(),
        text_map(m@) == endpoints_of(domain@, use_tls),
{
    let s = scheme(use_tls);
    let mut m: NameMap<String> = NameMap::new();
    assert(text_map(m@) =~= Map::<Seq<char>, Seq<char>>::empty());
    insert_site(&mut m, "xmtpd", s, "xnet-100", domain);
    insert_site(&mut m, "node_go", s, "node-go", domain);
    insert_site(&mut m, "gateway", s, "gateway", domain);
    m
}

/// The dashboard addresses of the status response.
pub fn build_dashboards(domain: &str, use_tls: bool) -> (m: NameMap<String>)
    ensures
        m.wf(),
        text_map(m@) == dashboards_of(domain@, use_tls),
{
    let s = scheme(use_tls);
    let mut m: NameMap<String> = NameMap::new();
    assert(text_map(m@) =~= Map::<Seq<char>, Seq<char>>::empty());
    insert_site(&mut m, "grafana", s, "grafana", domain);
    insert_site(&mut m, "prometheus", s, "prometheus", domain);
    insert_site(&mut m, "otterscan", s, "otterscan", domain);
    m
}

/// The image tag of a container, or `unknown` when the map does not hold it.
pub open spec fn tag_of(health: Map<Seq<char>, ContainerHealth>, name: Seq<char>) -> Seq<char> {
    if health.contains_key(name) {
        health[name].image_tag@
    } else {
        "unknown"@
    }
}

/// The image tag of a container, or `unknown`.
pub fn image_tag_or_unknown(health: &HealthMap, name: &str) -> (t: String)
    requires
        health.wf(),
    ensures
        t@ == tag_of(health@, name@),
{
    proof { reveal_strlit("unknown"); }
    match health.get(name) {
        Some(c) => c.image_tag.clone(),
        None => owned("unknown"),
    }
}

/// The versions the status response reports.
#[derive(Debug)]
pub struct VersionsResponse {
    pub xmtpd: String,
    pub node_go: String,
    pub contracts: String,
}

/// The versions are the image tags of the xmtpd, node-go and contracts containers.
pub open spec fn versions_for(v: VersionsResponse, health: Map<Seq<char>, ContainerHealth>) -> bool {
    &&& v.xmtpd@ == tag_of(health, "xnet-100"@)
    &&& v.node_go@ == tag_of(health, "xnet-node"@)
    &&& v.contracts@ == tag_of(health, "xnet-anvil"@)
}

/// Each version reported is the image tag of the container that runs the
/// component (xmtpd in `xnet-100`, node-go in `xnet-node`, the contracts in
/// `xnet-anvil`), and `unknown` exactly where the health map has no such
/// container.
pub proof fn lemma_versions_from_containers(v: VersionsResponse, health: Map<Seq<char>, ContainerHealth>)
    requires
        versions_for(v, health),
    ensures
        health.contains_key("xnet-100"@) ==> v.xmtpd@ == health["xnet-100"@].image_tag@,
        !health.contains_key("xnet-100"@) ==> v.xmtpd@ == "unknown"@,
        health.contains_key("xnet-node"@) ==> v.node_go@ == health["xnet-node"@].image_tag@,
        !health.contains_key("xnet-node"@) ==> v.node_go@ == "unknown"@,
        health.contains_key("xnet-anvil"@) ==> v.contracts@ == health["xnet-anvil"@].image_tag@,
        !health.contains_key("xnet-anvil"@) ==> v.contracts@ == "unknown"@,
{
}

/// The image tags of the xmtpd, node-go and contracts containers.
pub fn build_versions(health: &HealthMap) -> (v: VersionsResponse)
    requires
        health.wf(),
    ensures
        versions_for(v, health@),
{
    VersionsResponse {
        xmtpd: image_tag_or_unknown(health, "xnet-100"),
        node_go: image_tag_or_unknown(health, "xnet-node"),
        contracts: image_tag_or_unknown(health, "xnet-anvil"),
    }
}

/// The cutover part of the status response.
#[derive(Debug)]
pub struct CutoverInfo {
    pub timestamp_ns: Option<u64>,
    pub timestamp_s: Option<u64>,
    pub scheduled_utc: Option<String>,
    pub elapsed_since_cutover_s: Option<u64>,
    pub time_until_teardown_s: Option<u64>,
}

/// The format of the scheduled cutover time.
pub open spec fn utc_format() -> Seq<char> {
    "%Y-%m-%dT%H:%M:%SZ"@
}

/// The cutover time in seconds and as UTC text, the whole seconds since it (none
/// before it), and the whole seconds until teardown (zero once it is due); all
/// absent without a cutover time.
pub open spec fn cutover_info_for(info: CutoverInfo, cutover_ns: Option<u64>, now_ns: u64) -> bool {
    &&& info.timestamp_ns == cutover_ns
    &&& match cutover_ns {
        Some(ns) => {
            &&& info.timestamp_s == Some((ns / NS_PER_S) as u64)
            &&& info.scheduled_utc matches Some(t) && t@ == utc_text(ns, utc_format())
            &&& info.elapsed_since_cutover_s == if now_ns >= ns {
                Some(((now_ns - ns) / NS_PER_S as int) as u64)
            } else {
                None
            }
            &&& info.time_until_teardown_s == if now_ns < ns + TEARDOWN_OFFSET_NS {
                Some(((ns + TEARDOWN_OFFSET_NS - now_ns) / NS_PER_S as int) as u64)
            } else {
                Some(0)
            }
        },
        None => {
            &&& info.timestamp_s is None
            &&& info.scheduled_utc is None
            &&& info.elapsed_since_cutover_s is None
            &&& info.time_until_teardown_s is None
        },
    }
}

/// The cutover part of the status response at `now_ns`.
pub fn build_cutover_info(cutover_ns: Option<u64>, now_ns: u64) -> (info: CutoverInfo)
    requires
        cutover_fits(cutover_ns),
    ensures
        cutover_info_for(info, cutover_ns, now_ns),
{
    match cutover_ns {
        Some(ns) => {
            let teardown_ns = ns + TEARDOWN_OFFSET_NS;
            let ts_s = ns / NS_PER_S;
            let scheduled_utc = Some(format_utc(ns, "%Y-%m-%dT%H:%M:%SZ"));
            let elapsed = if now_ns >= ns {
                Some((now_ns - ns) / NS_PER_S)
            } else {
                None
            };
            let until_teardown = if now_ns < teardown_ns {
                Some((teardown_ns - now_ns) / NS_PER_S)
            } else {
                Some(0)
            };
            CutoverInfo {
                timestamp_ns: Some(ns),
                timestamp_s: Some(ts_s),
                scheduled_utc,
                elapsed_since_cutover_s: elapsed,
                time_until_teardown_s: until_teardown,
            }
        },
        None => CutoverInfo {
            timestamp_ns: None,
            timestamp_s: None,
            scheduled_utc: None,
            elapsed_since_cutover_s: None,
            time_until_teardown_s: None,
        },
    }
}

/// A container's state in the status response.
#[derive(Debug)]
pub struct ServiceStatus {
    pub state: String,
    pub status: String,
    pub up: bool,
}

/// One service entry per container, under the container's name, with its state,
/// status and whether it is up.
pub open spec fn services_for(m: NameMap<ServiceStatus>, health: Map<Seq<char>, ContainerHealth>) -> bool {
    &&& m.wf()
    &&& forall|k: Seq<char>| m@.contains_key(k) <==> health.contains_key(k)
    &&& forall|k: Seq<char>|
        #[trigger] m@.contains_key(k) ==> m@[k].state@ == health[k].state@ && m@[k].status@ == health[k].status@
            && m@[k].up == health[k].up
}

/// One service entry per container, under the container's name.
pub fn build_services(health: &HealthMap) -> (m: NameMap<ServiceStatus>)
    requires
        health.wf(),
    ensures
        services_for(m, health@),
{
    let mut m: NameMap<ServiceStatus> = NameMap::new();
    let n = health.len();
    let mut i: usize = 0;
    proof { health.lemma_view(); }
    while i < n
        invariant
            i <= n,
            n == health.names().len(),
            health.wf(),
            m.wf(),
            forall|k: Seq<char>| m@.contains_key(k) <==> exists|j: int| 0 <= j < i && health.names()[j] == k,
            forall|k: Seq<char>|
                #[trigger] m@.contains_key(k) ==> m@[k].state@ == health@[k].state@ && m@[k].status@
                    == health@[k].status@ && m@[k].up == health@[k].up,
        decreases n - i,
    {
        let (name, c) = health.entry(i);
        proof { health.lemma_view(); }
        let s = ServiceStatus { state: c.state.clone(), status: c.status.clone(), up: c.up };
        m.insert(name.clone(), s);
        proof {
            assert(health@[health.names()[i as int]] == health.vals()[i as int]);
            assert forall|k: Seq<char>| m@.contains_key(k) <==> exists|j: int| 0 <= j < i + 1 && health.names()[j] == k by {
                if k == name@ {
                    assert(health.names()[i as int] == k);
                }
            }
        }
        i += 1;
    }
    proof {
        health.lemma_view();
        assert forall|k: Seq<char>| m@.contains_key(k) <==> health@.contains_key(k) by {
            if health@.contains_key(k) {
                assert(health.names().contains(k));
                let j = choose|j: int| 0 <= j < health.names().len() && health.names()[j] == k;
                assert(exists|j: int| 0 <= j < n && health.names()[j] == k);
            }
            if m@.contains_key(k) {
                let j = choose|j: int| 0 <= j < n && health.names()[j] == k;
                assert(health.names().contains(k));
            }
        }
    }
    m
}

/// The server part of the status response.
#[derive(Debug)]
pub struct ServerInfoResponse {
    pub domain: String,
    pub region: String,
    pub server_type: String,
    pub tls: bool,
    pub uptime_s: u64,
}

/// The server as configured; uptime is not tracked and reads zero.
pub open spec fn server_for(r: ServerInfoResponse, server: ServerInfo) -> bool {
    &&& r.domain@ == server.domain@
    &&& r.region@ == server.region@
    &&& r.server_type@ == server.server_type@
    &&& r.tls == server.use_tls
    &&& r.uptime_s == 0
}

/// The server part of the status response.
pub fn build_server_response(server: &ServerInfo) -> (r: ServerInfoResponse)
    ensures
        server_for(r, *server),
{
    ServerInfoResponse {
        domain: server.domain.clone(),
        region: server.region.clone(),
        server_type: server.server_type.clone(),
        tls: server.use_tls,
        uptime_s: 0,
    }
}

/// The whole status response.
pub struct StatusResponse {
    pub phase: String,
    pub cutover: CutoverInfo,
    pub migration: MigrationState,
    pub services: NameMap<ServiceStatus>,
    /// Whether the contracts are paused (never, here).
    pub contracts_paused: bool,
    pub server: ServerInfoResponse,
    pub versions: VersionsResponse,
    pub endpoints: NameMap<String>,
    pub dashboards: NameMap<String>,
}

/// The status response at `now`: the phase's API name, cutover timings, the
/// migration state, services, server, versions, endpoints and dashboards.
pub fn build_status_response(
    now: u64,
    cutover_ns: Option<u64>,
    migration: &MigrationState,
    health: &HealthMap,
    config: &StatusSection,
) -> (r: StatusResponse)
    requires
        cutover_fits(cutover_ns),
        health.wf(),
    ensures
        r.phase@ == api_name_of(phase_of(now, cutover_ns, *migration)),
        cutover_info_for(r.cutover, cutover_ns, now),
        r.migration.message_types@ == migration.message_types@,
        r.migration.message_types.items() == migration.message_types.items(),
        r.migration.message_types.kinds() == migration.message_types.kinds(),
        services_for(r.services, health@),
        !r.contracts_paused,
        server_for(r.server, config.server),
        versions_for(r.versions, health@),
        r.endpoints.wf(),
        r.dashboards.wf(),
        text_map(r.endpoints@) == endpoints_of(config.server.domain@, config.server.use_tls),
        text_map(r.dashboards@) == dashboards_of(config.server.domain@, config.server.use_tls),
{
    let current_phase = compute_phase_at(now, cutover_ns, migration);
    StatusResponse {
        phase: owned(current_phase.api_name()),
        cutover: build_cutover_info(cutover_ns, now),
        migration: migration.copy(),
        services: build_services(health),
        contracts_paused: false,
        server: build_server_response(&config.server),
        versions: build_versions(health),
        endpoints: build_endpoints(config.server.domain.as_str(), config.server.use_tls),
        dashboards: build_dashboards(config.server.domain.as_str(), config.server.use_tls),
    }
}

/// The cutover response.
pub struct CutoverResponse {
    pub timestamp_ns: Option<u64>,
    pub timestamp_s: Option<u64>,
    pub phase: String,
    pub scheduled_utc: Option<String>,
    pub timezones: NameMap<String>,
}

/// The cutover time in the first `n` shown zones, by label.
pub open spec fn zones_upto(ns: u64, n: nat) -> Map<Seq<char>, Seq<char>>
    decreases n,
{
    if n == 0 {
        Map::empty()
    } else {
        zones_upto(ns, (n - 1) as nat).insert(zone_spec(n - 1).0, zone_value(ns, n - 1))
    }
}

/// The cutover time in the shown zones, by label.
pub open spec fn zones_map(ns: u64) -> Map<Seq<char>, Seq<char>> {
    zones_upto(ns, ZONE_COUNT as nat)
}

/// The cutover response for a phase: the cutover time in nanoseconds, seconds
/// and UTC text, and by time zone; all absent (and no zones) without a cutover
/// time.
pub fn build_cutover_response(cutover_ns: Option<u64>, phase: &Phase) -> (r: CutoverResponse)
    ensures
        r.timestamp_ns == cutover_ns,
        r.phase@ == api_name_of(*phase),
        r.timezones.wf(),
        match cutover_ns {
            Some(ns) => {
                &&& r.timestamp_s == Some((ns / NS_PER_S) as u64)
                &&& r.scheduled_utc matches Some(t) && t@ == utc_text(ns, utc_format())
                &&& text_map(r.timezones@) == zones_map(ns)
            },
            None => {
                &&& r.timestamp_s is None
                &&& r.scheduled_utc is None
                &&& r.timezones@ == Map::<Seq<char>, String>::empty()
            },
        },
{
    let mut timezones: NameMap<String> = NameMap::new();
    match cutover_ns {
        Some(ns) => {
            let ts_s = ns / NS_PER_S;
            let scheduled = Some(format_utc(ns, "%Y-%m-%dT%H:%M:%SZ"));
            let pairs = format_cutover_times(ns);
            assert(pair_texts(pairs@).len() == pairs@.len());
            let mut i: usize = 0;
            assert(text_map(timezones@) =~= zones_upto(ns, 0));
            while i < pairs.len()
                invariant
                    i <= pairs.len(),
                    pairs.len() == ZONE_COUNT,
                    pair_texts(pairs@) == Seq::new(ZONE_COUNT as nat, |j: int| (zone_spec(j).0, zone_value(ns, j))),
                    timezones.wf(),
                    text_map(timezones@) == zones_upto(ns, i as nat),
                decreases pairs.len() - i,
            {
                let (label, value) = &pairs[i];
                assert(pair_texts(pairs@)[i as int] == (label@, value@));
                let ghost lv = label@;
                let ghost vv = value@;
                let ghost before = text_map(timezones@);
                timezones.insert(label.clone(), value.clone());
                proof {
                    assert(text_map(timezones@) =~= before.insert(lv, vv));
                    assert(zones_upto(ns, (i + 1) as nat) == zones_upto(ns, i as nat).insert(zone_spec(i as int).0, zone_value(ns, i as int)));
                }
                i += 1;
            }
            CutoverResponse {
                timestamp_ns: Some(ns),
                timestamp_s: Some(ts_s),
                phase: owned(phase.api_name()),
                scheduled_utc: scheduled,
                timezones,
            }
        },
        None => CutoverResponse {
            timestamp_ns: None,
            timestamp_s: None,
            phase: owned(phase.api_name()),
            scheduled_utc: None,
            timezones,
        },
    }
}

/// A node in the nodes response.
#[derive(Debug)]
pub struct NodeInfo {
    pub url: String,
    pub migrator: bool,
    pub healthy: bool,
}

/// Whether every character is an ASCII digit.
pub open spec fn ascii_digits(s: Seq<char>) -> bool {
    forall|i: int| 0 <= i < s.len() ==> is_digit(#[trigger] s[i])
}

fn all_ascii_digits(s: &str) -> (r: bool)
    ensures
        r == ascii_digits(s@),
{
    let cs = chars_of(s);
    let mut i: usize = 0;
    while i < cs.len()
        invariant
            i <= cs.len(),
            cs@ == s@,
            forall|j: int| 0 <= j < i ==> is_digit(#[trigger] cs@[j]),
        decreases cs.len() - i,
    {
        if !('0' <= cs[i] && cs[i] <= '9') {
            assert(!is_digit(cs@[i as int]));
            return false;
        }
        i += 1;
    }
    true
}

/// Whether `p` is among the migrator nodes' ports.
fn is_migrator_port(config: &StatusSection, p: u16) -> (r: bool)
    ensures
        r == exists|i: int| 0 <= i < config.migrator_nodes@.len() && config.migrator_nodes@[i].port == p,
{
    let mut i: usize = 0;
    while i < config.migrator_nodes.len()
        invariant
            i <= config.migrator_nodes.len(),
            forall|j: int| 0 <= j < i ==> config.migrator_nodes@[j].port != p,
        decreases config.migrator_nodes.len() - i,
    {
        if config.migrator_nodes[i].port == p {
            return true;
        }
        i += 1;
    }
    false
}

/// Whether a container with this health runs a migrator.
pub open spec fn runs_migrator(config: StatusSection, c: ContainerHealth) -> bool {
    c.port matches Some(p) && exists|i: int| 0 <= i < config.migrator_nodes@.len() && config.migrator_nodes@[i].port == p
}

/// The node id a container name gives: what follows `xnet-`, when that is
/// all ASCII digits.
pub open spec fn node_id_of(name: Seq<char>) -> Option<Seq<char>> {
    if has_prefix(name, "xnet-"@) && ascii_digits(name.skip(5)) {
        Some(name.skip(5))
    } else {
        None
    }
}

proof fn lemma_node_id(name: Seq<char>, id: Seq<char>)
    ensures
        node_id_of(name) == Some(id) <==> (name == "xnet-"@ + id && ascii_digits(id)),
{
    reveal_strlit("xnet-");
    if name == "xnet-"@ + id {
        assert(name.take(5) =~= "xnet-"@);
        assert(name.skip(5) =~= id);
    }
    if node_id_of(name) == Some(id) {
        assert(name =~= "xnet-"@ + id);
    }
}

/// The numbered xnet nodes: one entry per container named `xnet-` and an id of
/// ASCII digits, under the id, with the node's address, whether it runs the
/// migrator (its public port is a migrator node's) and whether it is up.
pub fn build_nodes(config: &StatusSection, health: &HealthMap) -> (m: NameMap<NodeInfo>)
    requires
        health.wf(),
    ensures
        m.wf(),
        forall|id: Seq<char>|
            m@.contains_key(id) <==> (ascii_digits(id) && health@.contains_key("xnet-"@ + id)),
        forall|id: Seq<char>|
            #[trigger] m@.contains_key(id) ==> {
                &&& m@[id].url@ == site(scheme_of(config.server.use_tls), "xnet-"@ + id, config.server.domain@)
                &&& m@[id].healthy == health@["xnet-"@ + id].up
                &&& m@[id].migrator == runs_migrator(*config, health@["xnet-"@ + id])
            },
{
    let s = scheme(config.server.use_tls);
    let mut m: NameMap<NodeInfo> = NameMap::new();
    let n = health.len();
    let mut i: usize = 0;
    proof { health.lemma_view(); }
    while i < n
        invariant
            i <= n,
            n == health.names().len(),
            health.wf(),
            m.wf(),
            s@ == scheme_of(config.server.use_tls),
            forall|id: Seq<char>|
                #[trigger] m@.contains_key(id) <==> exists|j: int| 0 <= j < i && node_id_of(health.names()[j]) == Some(id),
            forall|id: Seq<char>|
                #[trigger] m@.contains_key(id) ==> {
                    &&& m@[id].url@ == site(scheme_of(config.server.use_tls), "xnet-"@ + id, config.server.domain@)
                    &&& m@[id].healthy == health@["xnet-"@ + id].up
                    &&& m@[id].migrator == runs_migrator(*config, health@["xnet-"@ + id])
                },
        decreases n - i,
    {
        let (name, c) = health.entry(i);
        proof {
            health.lemma_view();
            reveal_strlit("xnet-");
            assert(health@[health.names()[i as int]] == health.vals()[i as int]);
        }
        let ghost nm = name@;
        match strip_prefix(name.as_str(), "xnet-") {
            Some(id) => {
                proof {
                    assert(nm =~= "xnet-"@ + id@);
                    lemma_node_id(nm, id@);
                }
                if all_ascii_digits(id.as_str()) {
                    let migrator = match c.port {
                        Some(p) => is_migrator_port(config, p),
                        None => false,
                    };
                    let info = NodeInfo { url: site_url(s, name.as_str(), config.server.domain.as_str()), migrator, healthy: c.up };
                    let ghost idv = id@;
                    m.insert(id, info);
                    proof {
                        assert forall|k: Seq<char>|
                            #[trigger] m@.contains_key(k) <==> exists|j: int| 0 <= j < i + 1 && node_id_of(health.names()[j]) == Some(k) by {
                            if k == idv {
                                assert(node_id_of(health.names()[i as int]) == Some(k));
                            }
                        }
                    }
                } else {
                    proof {
                        assert(node_id_of(nm) is None) by {
                            if node_id_of(nm) is Some {
                                lemma_node_id(nm, nm.skip(5));
                                assert(nm.skip(5) =~= id@);
                            }
                        }
                        assert forall|k: Seq<char>|
                            #[trigger] m@.contains_key(k) <==> exists|j: int| 0 <= j < i + 1 && node_id_of(health.names()[j]) == Some(k) by {
                        }
                    }
                }
            },
            None => {
                proof {
                    assert(node_id_of(nm) is None);
                    assert forall|k: Seq<char>|
                        #[trigger] m@.contains_key(k) <==> exists|j: int| 0 <= j < i + 1 && node_id_of(health.names()[j]) == Some(k) by {
                    }
                }
            },
        }
        i += 1;
    }
    proof {
        health.lemma_view();
        assert forall|id: Seq<char>|
            m@.contains_key(id) <==> (ascii_digits(id) && health@.contains_key("xnet-"@ + id)) by {
            if ascii_digits(id) && health@.contains_key("xnet-"@ + id) {
                assert(health.names().contains("xnet-"@ + id));
                let j = choose|j: int| 0 <= j < health.names().len() && health.names()[j] == "xnet-"@ + id;
                lemma_node_id("xnet-"@ + id, id);
                assert(node_id_of(health.names()[j]) == Some(id));
            }
            if m@.contains_key(id) {
                let j = choose|j: int| 0 <= j < n && node_id_of(health.names()[j]) == Some(id);
                lemma_node_id(health.names()[j], id);
                assert(health.names().contains("xnet-"@ + id));
            }
        }
    }
    m
}

} // verus!
