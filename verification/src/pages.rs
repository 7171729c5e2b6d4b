//! What the index page shows, computed from the service's state.
use vstd::prelude::*;
use crate::api::{scheme, scheme_of, site, site_url, image_tag_or_unknown, tag_of};
use crate::cutover::{format_cutover_times, pair_texts, zone_spec, zone_value, ZONE_COUNT};
use crate::health::HealthMap;
use crate::htmx::{format_port, port_text};
use crate::text::owned;

verus! {

/// The cutover time in one time zone.
#[derive(Debug)]
pub struct TzDisplay {
    pub label: String,
    pub time: String,
}

/// A service and its port.
#[derive(Debug)]
pub struct ServiceEntry {
    pub name: String,
    pub port: String,
}

/// A node API address.
#[derive(Debug)]
pub struct EndpointEntry {
    pub label: String,
    pub url: String,
}

/// A dashboard address.
#[derive(Debug)]
pub struct DashboardEntry {
    pub name: String,
    pub url: String,
}

/// A component's version.
#[derive(Debug)]
pub struct VersionEntry {
    pub name: String,
    pub tag: String,
}

/// The components whose versions are shown, with their containers.
pub open spec fn version_source(i: int) -> (Seq<char>, Seq<char>) {
    if i == 0 {
        ("xmtpd"@, "xnet-100"@)
    } else if i == 1 {
        ("node-go"@, "xnet-node"@)
    } else {
        ("contracts"@, "xnet-anvil"@)
    }
}

/// The version of xmtpd, node-go and the contracts: their containers' image
/// tags, or `unknown`.
pub fn build_versions(health: &HealthMap) -> (v: Vec<VersionEntry>)
    requires
        health.wf(),
    ensures
        v@.len() == 3,
        forall|i: int|
            0 <= i < 3 ==> #[trigger] v@[i].name@ == version_source(i).0 && v@[i].tag@ == tag_of(
                health@,
                version_source(i).1,
            ),
{
    let mut v: Vec<VersionEntry> = Vec::new();
    v.push(VersionEntry { name: owned("xmtpd"), tag: image_tag_or_unknown(health, "xnet-100") });
    v.push(VersionEntry { name: owned("node-go"), tag: image_tag_or_unknown(health, "xnet-node") });
    v.push(VersionEntry { name: owned("contracts"), tag: image_tag_or_unknown(health, "xnet-anvil") });
    v
}

/// The index page shows the versions that the status response reports:
/// xmtpd, node-go and the contracts, in that order, each with the same tag.
pub proof fn lemma_page_versions_match_api(
    entries: Seq<VersionEntry>,
    v: crate::api::VersionsResponse,
    health: Map<Seq<char>, crate::health::ContainerHealth>,
)
    requires
        entries.len() == 3,
        forall|i: int|
            0 <= i < 3 ==> #[trigger] entries[i].name@ == version_source(i).0 && entries[i].tag@ == tag_of(
                health,
                version_source(i).1,
            ),
        crate::api::versions_for(v, health),
    ensures
        entries[0].name@ == "xmtpd"@ && entries[0].tag@ == v.xmtpd@,
        entries[1].name@ == "node-go"@ && entries[1].tag@ == v.node_go@,
        entries[2].name@ == "contracts"@ && entries[2].tag@ == v.contracts@,
{
    assert(entries[0].name@ == version_source(0).0);
    assert(entries[1].name@ == version_source(1).0);
    assert(entries[2].name@ == version_source(2).0);
}

/// The cutover time in each shown zone, or a single `N/A` entry without a
/// cutover time.
pub fn build_timezones(cutover_ts: Option<u64>) -> (v: Vec<TzDisplay>)
    ensures
        match cutover_ts {
            None => v@.len() == 1 && v@[0].label@ == "N/A"@ && v@[0].time@ == "no cutover scheduled"@,
            Some(ns) => v@.len() == ZONE_COUNT && forall|i: int|
                0 <= i < ZONE_COUNT ==> #[trigger] v@[i].label@ == zone_spec(i).0 && v@[i].time@ == zone_value(
                    ns,
                    i,
                ),
        },
{
    match cutover_ts {
        None => {
            let mut v: Vec<TzDisplay> = Vec::new();
            v.push(TzDisplay { label: owned("N/A"), time: owned("no cutover scheduled") });
            v
        },
        Some(ts) => {
            let pairs = format_cutover_times(ts);
            assert(pair_texts(pairs@).len() == pairs@.len());
            let mut v: Vec<TzDisplay> = Vec::new();
            let mut i: usize = 0;
            while i < pairs.len()
                invariant
                    i <= pairs.len(),
                    pairs.len() == ZONE_COUNT,
                    pair_texts(pairs@) == Seq::new(ZONE_COUNT as nat, |j: int| (zone_spec(j).0, zone_value(ts, j))),
                    v@.len() == i,
                    forall|j: int|
                        0 <= j < i ==> #[trigger] v@[j].label@ == zone_spec(j).0 && v@[j].time@ == zone_value(ts, j),
                decreases pairs.len() - i,
            {
                let (label, time) = &pairs[i];
                assert(pair_texts(pairs@)[i as int] == (label@, time@));
                v.push(TzDisplay { label: label.clone(), time: time.clone() });
                i += 1;
            }
            v
        },
    }
}

/// One entry per container, in container name order: its display name and port.
pub fn build_service_entries(health: &HealthMap) -> (v: Vec<ServiceEntry>)
    ensures
        v@.len() == health.names().len(),
        forall|i: int|
            0 <= i < v@.len() ==> #[trigger] v@[i].name@ == health.vals()[i].display_name@ && v@[i].port@
                == port_text(health.vals()[i].port),
{
    let mut v: Vec<ServiceEntry> = Vec::new();
    let n = health.len();
    let mut i: usize = 0;
    while i < n
        invariant
            i <= n,
            n == health.names().len(),
            v@.len() == i,
            forall|j: int|
                0 <= j < i ==> #[trigger] v@[j].name@ == health.vals()[j].display_name@ && v@[j].port@
                    == port_text(health.vals()[j].port),
        decreases n - i,
    {
        let (_, c) = health.entry(i);
        let ghost pre = v@;
        v.push(ServiceEntry { name: c.display_name.clone(), port: format_port(c.port) });
        assert forall|j: int| 0 <= j < i + 1 implies #[trigger] v@[j].name@ == health.vals()[j].display_name@
            && v@[j].port@ == port_text(health.vals()[j].port) by {
            if j < i {
                assert(v@[j] == pre[j]);
            } else {
                assert(v@[j] == v@[i as int]);
                assert(*c == health.vals()[i as int]);
                assert(v@[i as int].name@ == c.display_name@);
                assert(v@[i as int].port@ == port_text(c.port));
            }
        }
        i += 1;
    }
    v
}

/// The node APIs shown: (label, host).
pub open spec fn endpoint_source(i: int) -> (Seq<char>, Seq<char>) {
    if i == 0 {
        ("node-go (v3)"@, "node-go"@)
    } else if i == 1 {
        ("xmtpd (d14n)"@, "xnet-100"@)
    } else {
        ("gateway"@, "gateway"@)
    }
}

/// The node API addresses on the index page.
pub fn build_endpoint_entries(domain: &str, use_tls: bool) -> (v: Vec<EndpointEntry>)
    ensures
        v@.len() == 3,
        forall|i: int|
            0 <= i < 3 ==> #[trigger] v@[i].label@ == endpoint_source(i).0 && v@[i].url@ == site(
                scheme_of(use_tls),
                endpoint_source(i).1,
                domain@,
            ),
{
    let s = scheme(use_tls);
    let mut v: Vec<EndpointEntry> = Vec::new();
    v.push(EndpointEntry { label: owned("node-go (v3)"), url: site_url(s, "node-go", domain) });
    v.push(EndpointEntry { label: owned("xmtpd (d14n)"), url: site_url(s, "xnet-100", domain) });
    v.push(EndpointEntry { label: owned("gateway"), url: site_url(s, "gateway", domain) });
    v
}

/// The dashboards shown: (name, host).
pub open spec fn dashboard_source(i: int) -> (Seq<char>, Seq<char>) {
    if i == 0 {
        ("Grafana"@, "grafana"@)
    } else if i == 1 {
        ("Prometheus"@, "prometheus"@)
    } else if i == 2 {
        ("Otterscan"@, "otterscan"@)
    } else {
        ("pgAdmin"@, "pgadmin"@)
    }
}

/// The dashboard addresses on the index page.
pub fn build_dashboard_entries(domain: &str, use_tls: bool) -> (v: Vec<DashboardEntry>)
    ensures
        v@.len() == 4,
        forall|i: int|
            0 <= i < 4 ==> #[trigger] v@[i].name@ == dashboard_source(i).0 && v@[i].url@ == site(
                scheme_of(use_tls),
                dashboard_source(i).1,
                domain@,
            ),
{
    let s = scheme(use_tls);
    let mut v: Vec<DashboardEntry> = Vec::new();
    v.push(DashboardEntry { name: owned("Grafana"), url: site_url(s, "grafana", domain) });
    v.push(DashboardEntry { name: owned("Prometheus"), url: site_url(s, "prometheus", domain) });
    v.push(DashboardEntry { name: owned("Otterscan"), url: site_url(s, "otterscan", domain) });
    v.push(DashboardEntry { name: owned("pgAdmin"), url: site_url(s, "pgadmin", domain) });
    v
}

} // verus!
