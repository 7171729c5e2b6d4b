//! Container health as Docker reports it, keyed by container name.
use vstd::prelude::*;
use crate::name_map::NameMap;
use crate::text::{chars_of, owned, string_of, strip_prefix, has_prefix, starts_with_chars};

verus! {

/// Health of one container.
#[derive(Clone, Debug)]
pub struct ContainerHealth {
    pub display_name: String,
    pub port: Option<u16>,
    pub state: String,
    pub status: String,
    pub up: bool,
    pub image_tag: String,
}

/// [`ContainerHealth`] with its texts as character sequences.
pub struct ContainerHealthView {
    pub display_name: Seq<char>,
    pub port: Option<u16>,
    pub state: Seq<char>,
    pub status: Seq<char>,
    pub up: bool,
    pub image_tag: Seq<char>,
}

impl View for ContainerHealth {
    type V = ContainerHealthView;

    open spec fn view(&self) -> ContainerHealthView {
        ContainerHealthView {
            display_name: self.display_name@,
            port: self.port,
            state: self.state@,
            status: self.status@,
            up: self.up,
            image_tag: self.image_tag@,
        }
    }
}

/// Container health by container name, in name order.
pub type HealthMap = NameMap<ContainerHealth>;

/// The health entries of a map, as views.
pub open spec fn health_view(m: Map<Seq<char>, ContainerHealth>) -> Map<Seq<char>, ContainerHealthView> {
    m.map_values(|h: ContainerHealth| h@)
}

/// The display name of a container: its name without the `xnet-` prefix.
pub open spec fn display_name_of(name: Seq<char>) -> Seq<char> {
    if has_prefix(name, "xnet-"@) {
        name.skip(5)
    } else {
        name
    }
}

/// Derive a human-friendly display name from a container name.
/// e.g. "xnet-100" → "100", "xnet-gateway" → "gateway"
pub fn display_name_for(container_name: &str) -> (s: String)
    ensures
        s@ == display_name_of(container_name@),
{
    proof { reveal_strlit("xnet-"); }
    match strip_prefix(container_name, "xnet-") {
        Some(rest) => rest,
        None => owned(container_name),
    }
}

/// The characters of `s` before the first `c` (all of `s` when there is none).
pub open spec fn before_first(s: Seq<char>, c: char) -> Seq<char>
    decreases s.len(),
{
    if s.len() == 0 {
        s
    } else if s[0] == c {
        Seq::empty()
    } else {
        seq![s[0]] + before_first(s.drop_first(), c)
    }
}

/// The index of the last `c` in `s`, or -1.
pub open spec fn last_index(s: Seq<char>, c: char) -> int
    decreases s.len(),
{
    if s.len() == 0 {
        -1
    } else if s.last() == c {
        s.len() - 1
    } else {
        last_index(s.drop_last(), c)
    }
}

/// The tag of an image reference: after the last `:` that follows the last `/`
/// (ignoring any `@` digest), or `latest`.
pub open spec fn image_tag_of(image: Seq<char>) -> Seq<char> {
    let name = before_first(image, '@');
    let colon = last_index(name, ':');
    let slash = if last_index(name, '/') >= 0 { last_index(name, '/') } else { 0 };
    if colon >= 0 && colon > slash {
        name.skip(colon + 1)
    } else {
        "latest"@
    }
}

proof fn lemma_before_first(s: Seq<char>, c: char, i: int)
    requires
        0 <= i <= s.len(),
        forall|j: int| 0 <= j < i ==> s[j] != c,
        i == s.len() || s[i] == c,
    ensures
        before_first(s, c) == s.take(i),
    decreases i,
{
    if i == 0 {
        assert(s.take(0) =~= Seq::<char>::empty());
        if s.len() == 0 {
            assert(s =~= Seq::<char>::empty());
        }
    } else {
        lemma_before_first(s.drop_first(), c, i - 1);
        assert(s.take(i) =~= seq![s[0]] + s.drop_first().take(i - 1));
    }
}

proof fn lemma_last_index(s: Seq<char>, c: char, i: int)
    requires
        -1 <= i < s.len(),
        forall|j: int| i < j < s.len() ==> s[j] != c,
        i == -1 || s[i] == c,
    ensures
        last_index(s, c) == i,
    decreases s.len(),
{
    if s.len() > 0 && i < s.len() - 1 {
        lemma_last_index(s.drop_last(), c, i);
    }
}

/// The index of the last `c` in `cs`, as [`last_index`] gives it.
fn rfind(cs: &[char], c: char) -> (r: Option<usize>)
    ensures
        r is None ==> last_index(cs@, c) == -1,
        r matches Some(i) ==> i < cs.len() && last_index(cs@, c) == i,
{
    let mut i = cs.len();
    while i > 0
        invariant
            i <= cs.len(),
            forall|j: int| i <= j < cs.len() ==> cs@[j] != c,
        decreases i,
    {
        if cs[i - 1] == c {
            proof { lemma_last_index(cs@, c, i - 1); }
            return Some(i - 1);
        }
        i -= 1;
    }
    proof { lemma_last_index(cs@, c, -1); }
    None
}

/// Extract the tag from a Docker image reference.
/// e.g. "ghcr.io/xmtp/xmtpd:v1.3.0" → "v1.3.0", "myimage" → "latest"
pub fn parse_image_tag(image: &str) -> (tag: String)
    ensures
        tag@ == image_tag_of(image@),
{
    let cs = chars_of(image);
    let mut end: usize = 0;
    while end < cs.len() && cs[end] != '@'
        invariant
            end <= cs.len(),
            forall|j: int| 0 <= j < end ==> cs@[j] != '@',
        decreases cs.len() - end,
    {
        end += 1;
    }
    proof { lemma_before_first(cs@, '@', end as int); }
    let name = &cs[0..end];
    assert(name@ == before_first(image@, '@'));
    match rfind(name, ':') {
        Some(colon) => {
            let slash = match rfind(name, '/') {
                Some(p) => p,
                None => 0,
            };
            if colon > slash {
                string_of(&name[colon + 1..end])
            } else {
                proof { reveal_strlit("latest"); }
                owned("latest")
            }
        },
        None => owned("latest"),
    }
}

/// What Docker reports of a container, as the health poll reads it.
pub struct ContainerSummary {
    /// The container's names, each as Docker gives it (with a leading `/`).
    pub names: Vec<String>,
    /// Whether the container is in the running state.
    pub up: bool,
    /// The state's name in lower case, or empty when Docker gives none.
    pub state: String,
    pub status: Option<String>,
    pub image: Option<String>,
    /// The public port of each port mapping.
    pub public_ports: Vec<Option<u16>>,
}

/// [`ContainerSummary`] with its texts as character sequences.
pub struct ContainerSummaryView {
    pub names: Seq<Seq<char>>,
    pub up: bool,
    pub state: Seq<char>,
    pub status: Option<Seq<char>>,
    pub image: Option<Seq<char>>,
    pub public_ports: Seq<Option<u16>>,
}

impl View for ContainerSummary {
    type V = ContainerSummaryView;

    open spec fn view(&self) -> ContainerSummaryView {
        ContainerSummaryView {
            names: self.names@.map_values(|n: String| n@),
            up: self.up,
            state: self.state@,
            status: match self.status {
                Some(s) => Some(s@),
                None => None,
            },
            image: match self.image {
                Some(s) => Some(s@),
                None => None,
            },
            public_ports: self.public_ports@,
        }
    }
}

/// `s` without its leading `/` characters (`trim_start_matches('/')`).
pub open spec fn without_leading_slashes(s: Seq<char>) -> Seq<char>
    decreases s.len(),
{
    if s.len() > 0 && s[0] == '/' {
        without_leading_slashes(s.drop_first())
    } else {
        s
    }
}

/// The first public port among the port mappings.
pub open spec fn first_port(ports: Seq<Option<u16>>) -> Option<u16>
    decreases ports.len(),
{
    if ports.len() == 0 {
        None
    } else if ports[0] is Some {
        ports[0]
    } else {
        first_port(ports.drop_first())
    }
}

/// The health entry recorded for a container under one of its names.
pub open spec fn health_entry(c: ContainerSummaryView, clean_name: Seq<char>) -> ContainerHealthView {
    ContainerHealthView {
        display_name: display_name_of(clean_name),
        port: first_port(c.public_ports),
        state: c.state,
        status: match c.status {
            Some(s) => s,
            None => Seq::empty(),
        },
        up: c.up,
        image_tag: match c.image {
            Some(i) => image_tag_of(i),
            None => "unknown"@,
        },
    }
}

/// The entries that the names of one container add, in order of its names.
pub open spec fn names_into(
    m: Map<Seq<char>, ContainerHealthView>,
    c: ContainerSummaryView,
    names: Seq<Seq<char>>,
) -> Map<Seq<char>, ContainerHealthView>
    decreases names.len(),
{
    if names.len() == 0 {
        m
    } else {
        let clean = without_leading_slashes(names.last());
        let prev = names_into(m, c, names.drop_last());
        if has_prefix(clean, "xnet-"@) {
            prev.insert(clean, health_entry(c, clean))
        } else {
            prev
        }
    }
}

/// The health map built from Docker's container list: one entry per container
/// name that starts with `xnet-` once its leading `/` are removed; a name seen
/// again takes the later entry.
pub open spec fn health_of(cs: Seq<ContainerSummaryView>) -> Map<Seq<char>, ContainerHealthView>
    decreases cs.len(),
{
    if cs.len() == 0 {
        Map::empty()
    } else {
        names_into(health_of(cs.drop_last()), cs.last(), cs.last().names)
    }
}

/// Whether one of a container's names, without its leading `/`, is `key`.
pub open spec fn carries(c: ContainerSummaryView, key: Seq<char>) -> bool {
    exists|j: int| 0 <= j < c.names.len() && without_leading_slashes(#[trigger] c.names[j]) == key
}

/// Whether a health entry reports container `c` under the name `key`: its
/// display name is the name without `xnet-`; its port the first public port;
/// its state, running flag and Docker status text (empty when Docker gives
/// none) those of the container; its image tag that of the container's image
/// (`unknown` without one).
pub open spec fn reports(h: ContainerHealthView, c: ContainerSummaryView, key: Seq<char>) -> bool {
    &&& h.display_name == display_name_of(key)
    &&& h.port == first_port(c.public_ports)
    &&& h.state == c.state
    &&& h.up == c.up
    &&& h.status == (if c.status is Some { c.status->0 } else { Seq::<char>::empty() })
    &&& h.image_tag == (if c.image is Some { image_tag_of(c.image->0) } else { "unknown"@ })
}

proof fn lemma_names_into(
    m: Map<Seq<char>, ContainerHealthView>,
    c: ContainerSummaryView,
    names: Seq<Seq<char>>,
    key: Seq<char>,
)
    ensures
        ({
            let hit = has_prefix(key, "xnet-"@) && exists|j: int|
                0 <= j < names.len() && without_leading_slashes(#[trigger] names[j]) == key;
            let r = names_into(m, c, names);
            &&& r.contains_key(key) <==> (m.contains_key(key) || hit)
            &&& hit ==> r[key] == health_entry(c, key)
            &&& (!hit && m.contains_key(key)) ==> r[key] == m[key]
        }),
    decreases names.len(),
{
    if names.len() > 0 {
        let init = names.drop_last();
        lemma_names_into(m, c, init, key);
        let clean = without_leading_slashes(names.last());
        if exists|j: int| 0 <= j < names.len() && without_leading_slashes(#[trigger] names[j]) == key {
            let j = choose|j: int| 0 <= j < names.len() && without_leading_slashes(#[trigger] names[j]) == key;
            if j < names.len() - 1 {
                assert(init[j] == names[j]);
            }
        }
        assert forall|j: int| 0 <= j < init.len() && without_leading_slashes(#[trigger] init[j]) == key implies
            0 <= j < names.len() && without_leading_slashes(names[j]) == key by {
            assert(init[j] == names[j]);
        }
        if clean == key {
            assert(without_leading_slashes(names[names.len() - 1]) == key);
        }
    }
}

/// The health map has an entry for exactly the names, without their leading
/// `/`, that start with `xnet-` and that some container carries; each entry
/// reports the last container in the list that carries its name (its status
/// is that container's Docker status text, whatever its state).
pub proof fn lemma_health_entries(cs: Seq<ContainerSummaryView>, key: Seq<char>)
    ensures
        health_of(cs).contains_key(key) <==> (has_prefix(key, "xnet-"@) && exists|i: int|
            0 <= i < cs.len() && carries(#[trigger] cs[i], key)),
        health_of(cs).contains_key(key) ==> exists|i: int|
            0 <= i < cs.len() && carries(#[trigger] cs[i], key) && (forall|k: int| i < k < cs.len() ==> !carries(
                #[trigger] cs[k],
                key,
            )) && reports(health_of(cs)[key], cs[i], key),
    decreases cs.len(),
{
    if cs.len() > 0 {
        let init = cs.drop_last();
        let c = cs.last();
        let last = cs.len() - 1;
        lemma_health_entries(init, key);
        lemma_names_into(health_of(init), c, c.names, key);
        assert(cs[last] == c);
        assert forall|i: int| 0 <= i < init.len() implies #[trigger] cs[i] == init[i] by {}
        if has_prefix(key, "xnet-"@) && carries(c, key) {
            assert(carries(cs[last], key));
            assert(reports(health_entry(c, key), c, key));
        } else {
            if health_of(cs).contains_key(key) {
                let i = choose|i: int|
                    0 <= i < init.len() && carries(#[trigger] init[i], key) && (forall|k: int| i < k < init.len() ==> !carries(
                        #[trigger] init[k],
                        key,
                    )) && reports(health_of(init)[key], init[i], key);
                assert(cs[i] == init[i]);
                assert forall|k: int| i < k < cs.len() implies !carries(#[trigger] cs[k], key) by {
                    if k < last {
                        assert(cs[k] == init[k]);
                    }
                }
            }
            if has_prefix(key, "xnet-"@) && exists|i: int| 0 <= i < cs.len() && carries(#[trigger] cs[i], key) {
                let i = choose|i: int| 0 <= i < cs.len() && carries(#[trigger] cs[i], key);
                assert(i != last);
                assert(carries(init[i], key));
            }
        }
    }
}

fn trim_leading_slashes(name: &str) -> (r: String)
    ensures
        r@ == without_leading_slashes(name@),
{
    let cs = chars_of(name);
    let mut i: usize = 0;
    assert(cs@.skip(0) =~= cs@);
    while i < cs.len() && cs[i] == '/'
        invariant
            i <= cs.len(),
            without_leading_slashes(cs@) == without_leading_slashes(cs@.skip(i as int)),
        decreases cs.len() - i,
    {
        assert(cs@.skip(i as int).drop_first() =~= cs@.skip(i + 1));
        i += 1;
    }
    assert(cs@.skip(0) =~= cs@);
    assert(cs@.subrange(i as int, cs@.len() as int) =~= cs@.skip(i as int));
    string_of(&cs[i..cs.len()])
}

fn first_public_port(ports: &Vec<Option<u16>>) -> (r: Option<u16>)
    ensures
        r == first_port(ports@),
{
    let mut i: usize = 0;
    assert(ports@.skip(0) =~= ports@);
    while i < ports.len()
        invariant
            i <= ports.len(),
            first_port(ports@) == first_port(ports@.skip(i as int)),
        decreases ports.len() - i,
    {
        if ports[i].is_some() {
            return ports[i];
        }
        assert(ports@.skip(i as int).drop_first() =~= ports@.skip(i + 1));
        i += 1;
    }
    assert(ports@.skip(i as int) =~= Seq::<Option<u16>>::empty());
    None
}

fn make_entry(c: &ContainerSummary, clean: &str) -> (h: ContainerHealth)
    ensures
        h@ == health_entry(c@, clean@),
{
    proof { reveal_strlit("unknown"); }
    ContainerHealth {
        display_name: display_name_for(clean),
        port: first_public_port(&c.public_ports),
        state: c.state.clone(),
        status: match &c.status {
            Some(s) => s.clone(),
            None => String::new(),
        },
        up: c.up,
        image_tag: match &c.image {
            Some(i) => parse_image_tag(i.as_str()),
            None => owned("unknown"),
        },
    }
}

/// Builds the health map from Docker's container list (the computing part of
/// the Docker health poll).
pub fn health_from_containers(containers: &Vec<ContainerSummary>) -> (m: HealthMap)
    ensures
        m.wf(),
        health_view(m@) == health_of(containers@.map_values(|c: ContainerSummary| c@)),
{
    let ghost cv = containers@.map_values(|c: ContainerSummary| c@);
    let mut m: HealthMap = NameMap::new();
    let prefix = chars_of("xnet-");
    proof { reveal_strlit("xnet-"); }
    let mut i: usize = 0;
    assert(health_view(m@) =~= health_of(cv.take(0)));
    while i < containers.len()
        invariant
            i <= containers.len(),
            cv == containers@.map_values(|c: ContainerSummary| c@),
            m.wf(),
            prefix@ == "xnet-"@,
            health_view(m@) == health_of(cv.take(i as int)),
        decreases containers.len() - i,
    {
        let c = &containers[i];
        let ghost before = health_view(m@);
        let mut k: usize = 0;
        assert(c@.names.take(0) =~= Seq::<Seq<char>>::empty());
        while k < c.names.len()
            invariant
                k <= c.names.len(),
                c == &containers@[i as int],
                m.wf(),
                prefix@ == "xnet-"@,
                health_view(m@) == names_into(before, c@, c@.names.take(k as int)),
            decreases c.names.len() - k,
        {
            let clean = trim_leading_slashes(c.names[k].as_str());
            let ghost prev = health_view(m@);
            assert(c@.names.take(k + 1).drop_last() =~= c@.names.take(k as int));
            assert(c@.names.take(k + 1).last() == c.names@[k as int]@);
            if starts_with_chars(&chars_of(clean.as_str()), &prefix) {
                let entry = make_entry(c, clean.as_str());
                let ghost key = clean@;
                let ghost ev = entry@;
                m.insert(clean, entry);
                assert(health_view(m@) =~= prev.insert(key, ev));
            }
            k += 1;
        }
        assert(c@.names.take(c.names.len() as int) =~= c@.names);
        assert(cv.take(i + 1).drop_last() =~= cv.take(i as int));
        assert(cv.take(i + 1).last() == c@);
        i += 1;
    }
    assert(cv.take(containers.len() as int) =~= cv);
    m
}

} // verus!
