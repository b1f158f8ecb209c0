//! The regions to subscribe to: those that a mirror lists, and those that unit
//! files start, where no mirror lists them.

use vstd::prelude::*;

use crate::discovery::legacy_units::{text_in, DiscoveredSource};
use crate::discovery::naming::{
    parse_region_number, port_for_database, port_of, region_in_name, source_name_for_database, source_of,
    GLOBAL_DATABASE, GLOBAL_SOURCE,
};
use crate::json::{get, has_member, lacks_member, law_members_are_found_by_name, member, Json};
use crate::stable::{at_positions, is_order, is_stable, lemma_insert, lemma_insert_value};
use crate::text::{chars_of, decimal, push_chars, push_decimal, same_text, text_of, texts, trim, trimmed};
use crate::url_text::{parse_url, url_text};

verus! {

/// How a region was found.
#[derive(Debug, Clone, Copy, PartialEq, Eq, Structural)]
pub enum RegionBackend {
    /// A unit file starts a mirror of the region.
    RelayFleet,
    /// A mirror lists the region.
    PublicMirror,
}

/// A region to subscribe to.
#[derive(Debug)]
pub struct DiscoveredRegion {
    pub region: u32,
    pub database: String,
    pub bind_url: String,
    /// Port of the dashboard; only mirrors of single regions have one.
    pub dashboard_port: Option<u16>,
    pub backend: RegionBackend,
    /// Where the mirror lists its regions.
    pub mirrors_url: Option<String>,
}

/// Why regions could not be found.
#[derive(Debug)]
pub enum DiscoverError {
    /// There is no place at which a mirror lists its regions.
    NoMirrorsUrl,
    /// What a mirror answers has no list of mirrors.
    NoMirrors,
    /// This is no URL.
    BadUrl(String),
}

/// A number behind the loopback host.
pub open spec fn loopback(port: int) -> Seq<char> {
    "127.0.0.1:"@ + decimal(port as nat)
}

/// The subscription at a host.
pub open spec fn ws(host: Seq<char>) -> Seq<char> {
    "ws://"@ + host
}

/// The loopback host at a port.
fn loopback_at(port: u16) -> (r: String)
    ensures
        r@ == loopback(port as int),
{
    let mut text = text_of(chars_of("127.0.0.1:").as_slice());
    push_decimal(&mut text, port as u64);
    text
}

/// The URL of the subscription at a host.
fn ws_url(host: &str) -> (r: Result<String, DiscoverError>)
    ensures
        match r {
            Ok(u) => url_text(ws(host@)) == Some(u@),
            Err(e) => url_text(ws(host@)) is None && (e matches DiscoverError::BadUrl(t) && t@ == ws(host@)),
        },
{
    let mut text = text_of(chars_of("ws://").as_slice());
    push_chars(&mut text, chars_of(host).as_slice());
    match parse_url(text.as_str()) {
        Some(u) => Ok(u),
        None => Err(DiscoverError::BadUrl(text)),
    }
}

/// Whether a source is that of a region.
pub open spec fn is_regional(s: DiscoveredSource) -> bool {
    s.name@ != GLOBAL_SOURCE@ && region_in_name(s.name@) is Some
}

/// Sources of regions.
pub open spec fn regional() -> spec_fn(DiscoveredSource) -> bool {
    |s: DiscoveredSource| is_regional(s)
}

/// Whether a region is that of a source.
pub open spec fn is_unit_region(s: DiscoveredSource, r: DiscoveredRegion) -> bool {
    &&& region_in_name(s.name@) == Some(r.region)
    &&& r.database@ == s.database@
    &&& url_text(ws(loopback(s.frontend_port as int))) == Some(r.bind_url@)
    &&& r.dashboard_port == Some(s.dashboard_port)
    &&& r.backend is RelayFleet
    &&& r.mirrors_url is None
}

/// Whether regions are those of sources, in their order.
pub open spec fn are_unit_regions(s: Seq<DiscoveredSource>, r: Seq<DiscoveredRegion>) -> bool {
    &&& r.len() == s.len()
    &&& forall|i: int| 0 <= i < s.len() ==> is_unit_region(s[i], #[trigger] r[i])
}

/// Whether a source is that of a region to which no address leads.
pub open spec fn has_no_address(s: DiscoveredSource) -> bool {
    is_regional(s) && url_text(ws(loopback(s.frontend_port as int))) is None
}

/// The regions of sources. Sources that are not those of a region are left
/// out. The first region to which no address leads is an error.
pub fn discover_from_units(sources: &[DiscoveredSource]) -> (r: Result<Vec<DiscoveredRegion>, DiscoverError>)
    ensures
        match r {
            Ok(out) => are_unit_regions(sources@.filter(regional()), out@),
            Err(e) => exists|i: int|
                0 <= i < sources@.len() && has_no_address(#[trigger] sources@[i]) && (forall|j: int|
                    0 <= j < i ==> !has_no_address(#[trigger] sources@[j])) && (e matches DiscoverError::BadUrl(t) && t@ == ws(
                    loopback(sources@[i].frontend_port as int),
                )),
        },
{
    let mut out: Vec<DiscoveredRegion> = Vec::new();
    let mut i: usize = 0;
    proof {
        reveal(Seq::filter);
        assert(sources@.take(0).filter(regional()) =~= Seq::<DiscoveredSource>::empty());
    }
    while i < sources.len()
        invariant
            i <= sources@.len(),
            are_unit_regions(sources@.take(i as int).filter(regional()), out@),
            forall|j: int| 0 <= j < i ==> !has_no_address(#[trigger] sources@[j]),
        decreases sources.len() - i,
    {
        let src = &sources[i];
        let ghost kept = sources@.take(i as int).filter(regional());
        proof {
            reveal(Seq::filter);
            assert(sources@.take(i + 1).drop_last() =~= sources@.take(i as int));
        }
        if !same_text(src.name.as_str(), GLOBAL_SOURCE) {
            if let Some(region) = parse_region_number(src.name.as_str()) {
                assert(is_regional(*src));
                let bind_url: String = match ws_url(loopback_at(src.frontend_port).as_str()) {
                    Ok(u) => u,
                    Err(e) => {
                        assert(has_no_address(sources@[i as int]));
                        return Err(e);
                    },
                };
                out.push(
                    DiscoveredRegion {
                        region,
                        database: src.database.clone(),
                        bind_url,
                        dashboard_port: Some(src.dashboard_port),
                        backend: RegionBackend::RelayFleet,
                        mirrors_url: None,
                    },
                );
                assert(sources@.take(i + 1).filter(regional()) =~= kept.push(*src));
            }
        }
        i += 1;
    }
    assert(sources@.take(i as int) =~= sources@);
    Ok(out)
}

/// The database that an entry of a mirror names; empty where it names none.
pub open spec fn database_in(entry: Json) -> Seq<char> {
    match entry {
        Json::Object(o) => match member(o@, "database"@) {
            Some(Json::Text(t)) => t@,
            _ => Seq::empty(),
        },
        _ => Seq::empty(),
    }
}

/// Whether an entry of a mirror is that of a region.
pub open spec fn is_listed(entry: Json) -> bool {
    let database = database_in(entry);
    database.len() > 0 && database != GLOBAL_DATABASE@ && region_in_name(source_of(database)) is Some
}

/// Entries of regions.
pub open spec fn listed() -> spec_fn(Json) -> bool {
    |e: Json| is_listed(e)
}

/// The host that was given, without white space around it; `None` for none.
pub open spec fn given(host: Option<&str>) -> Option<Seq<char>> {
    match host {
        Some(h) => if trim(h@).len() > 0 {
            Some(trim(h@))
        } else {
            None
        },
        None => None,
    }
}

/// The host of a region: the one that was given, else the loopback host at the
/// port of the database.
pub open spec fn host_for(database: Seq<char>, host: Option<&str>) -> Seq<char> {
    match given(host) {
        Some(h) => h,
        None => loopback(port_of(database)),
    }
}

/// Whether a region is that of an entry of a mirror.
pub open spec fn is_listed_region(entry: Json, mirrors_url: Seq<char>, host: Option<&str>, r: DiscoveredRegion) -> bool {
    let database = database_in(entry);
    &&& region_in_name(source_of(database)) == Some(r.region)
    &&& r.database@ == database
    &&& url_text(ws(host_for(database, host))) == Some(r.bind_url@)
    &&& r.dashboard_port is None
    &&& r.backend is PublicMirror
    &&& text_in(r.mirrors_url) == Some(mirrors_url)
}

/// Whether regions are those of entries of a mirror, in their order.
pub open spec fn are_listed_regions(
    entries: Seq<Json>,
    mirrors_url: Seq<char>,
    host: Option<&str>,
    r: Seq<DiscoveredRegion>,
) -> bool {
    &&& r.len() == entries.len()
    &&& forall|i: int| 0 <= i < entries.len() ==> is_listed_region(entries[i], mirrors_url, host, #[trigger] r[i])
}

/// The list of mirrors in what a mirror answers.
pub open spec fn mirror_list(body: Json) -> Option<Seq<Json>> {
    match body {
        Json::Object(o) => match member(o@, "mirrors"@) {
            Some(Json::Array(a)) => Some(a@),
            _ => None,
        },
        _ => None,
    }
}

/// Whether the ports of the regions that a mirror lists are ports, where no
/// host is given.
pub open spec fn ports_exist(body: Json, host: Option<&str>) -> bool {
    mirror_list(body) matches Some(entries) ==> forall|i: int|
        0 <= i < entries.len() && is_listed(#[trigger] entries[i]) && given(host) is None ==> port_of(
            database_in(entries[i]),
        ) <= u16::MAX
}

/// The host that was given, without white space around it; `None` for none.
fn given_host(host: Option<&str>) -> (r: Option<String>)
    ensures
        text_in(r) == given(host),
{
    match host {
        Some(h) => {
            let chars = chars_of(h);
            let t = trimmed(chars.as_slice());
            if t.len() > 0 {
                Some(text_of(t))
            } else {
                None
            }
        },
        None => None,
    }
}

/// The database that an entry of a mirror names.
fn named_database(entry: &Json) -> (r: String)
    ensures
        r@ == database_in(*entry),
{
    match entry {
        Json::Object(o) => match get(o.as_slice(), "database") {
            Some(Json::Text(t)) => t.clone(),
            _ => String::new(),
        },
        _ => String::new(),
    }
}

/// Whether an entry is that of a region to which no address leads.
pub open spec fn leads_nowhere(entry: Json, host: Option<&str>) -> bool {
    is_listed(entry) && url_text(ws(host_for(database_in(entry), host))) is None
}

/// The regions that a mirror lists. Entries that are not those of a region are
/// left out. The first region to which no address leads is an error.
pub fn regions_of_mirror(body: &Json, mirrors_url: &str, host: Option<&str>) -> (r: Result<
    Vec<DiscoveredRegion>,
    DiscoverError,
>)
    requires
        ports_exist(*body, host),
    ensures
        match mirror_list(*body) {
            None => r matches Err(e) && e is NoMirrors,
            Some(entries) => match r {
                Ok(out) => are_listed_regions(entries.filter(listed()), mirrors_url@, host, out@),
                Err(e) => exists|i: int|
                    0 <= i < entries.len() && leads_nowhere(#[trigger] entries[i], host) && (forall|j: int|
                        0 <= j < i ==> !leads_nowhere(#[trigger] entries[j], host)) && (e matches DiscoverError::BadUrl(t)
                        && t@ == ws(host_for(database_in(entries[i]), host))),
            },
        },
{
    let entries = match body {
        Json::Object(o) => match get(o.as_slice(), "mirrors") {
            Some(Json::Array(a)) => a,
            _ => {
                return Err(DiscoverError::NoMirrors);
            },
        },
        _ => {
            return Err(DiscoverError::NoMirrors);
        },
    };
    let chosen = given_host(host);
    let mut out: Vec<DiscoveredRegion> = Vec::new();
    let mut i: usize = 0;
    proof {
        reveal(Seq::filter);
        assert(entries@.take(0).filter(listed()) =~= Seq::<Json>::empty());
    }
    while i < entries.len()
        invariant
            mirror_list(*body) == Some(entries@),
            ports_exist(*body, host),
            text_in(chosen) == given(host),
            i <= entries@.len(),
            are_listed_regions(entries@.take(i as int).filter(listed()), mirrors_url@, host, out@),
            forall|j: int| 0 <= j < i ==> !leads_nowhere(#[trigger] entries@[j], host),
        decreases entries.len() - i,
    {
        let entry = &entries[i];
        let ghost kept = entries@.take(i as int).filter(listed());
        proof {
            reveal(Seq::filter);
            assert(entries@.take(i + 1).drop_last() =~= entries@.take(i as int));
        }
        let database = named_database(entry);
        let len: usize = chars_of(database.as_str()).len();
        if len > 0 && !same_text(database.as_str(), GLOBAL_DATABASE) {
            if let Some(region) = parse_region_number(source_name_for_database(database.as_str()).as_str()) {
                let ghost here = mirror_list(*body)->Some_0[i as int];
                assert(is_listed(here) && database_in(here) == database@);
                let host_port: String = match &chosen {
                    Some(h) => h.clone(),
                    None => match port_for_database(database.as_str()) {
                        Some(p) => loopback_at(p),
                        None => {
                            assert(false);
                            String::new()
                        },
                    },
                };
                let bind_url: String = match ws_url(host_port.as_str()) {
                    Ok(u) => u,
                    Err(e) => {
                        assert(host_port@ == host_for(database_in(here), host));
                        return Err(e);
                    },
                };
                out.push(
                    DiscoveredRegion {
                        region,
                        database,
                        bind_url,
                        dashboard_port: None,
                        backend: RegionBackend::PublicMirror,
                        mirrors_url: Some(text_of(chars_of(mirrors_url).as_slice())),
                    },
                );
                assert(entries@.take(i + 1).filter(listed()) =~= kept.push(*entry));
            }
        }
        i += 1;
    }
    assert(entries@.take(i as int) =~= entries@);
    Ok(out)
}

/// The order of numbers.
pub open spec fn by_number() -> spec_fn(u32, u32) -> bool {
    |a: u32, b: u32| a <= b
}

/// The numbers of regions.
pub open spec fn numbers(s: Seq<DiscoveredRegion>) -> Seq<u32> {
    s.map_values(|r: DiscoveredRegion| r.region)
}

/// Whether regions are others in the order of their numbers; equal numbers
/// keep the order in which they came.
pub open spec fn sorted_by_region(found: Seq<DiscoveredRegion>, sorted: Seq<DiscoveredRegion>) -> bool {
    exists|p: Seq<int>| #[trigger] is_stable(numbers(found), by_number(), p) && sorted == at_positions(found, p)
}

/// Puts a region behind all whose numbers are not larger.
fn insert_region(out: &mut Vec<DiscoveredRegion>, r: DiscoveredRegion, Ghost(found): Ghost<Seq<DiscoveredRegion>>)
    requires
        sorted_by_region(found, old(out)@),
    ensures
        sorted_by_region(found.push(r), final(out)@),
{
    let ghost p = choose|p: Seq<int>| #[trigger]
        is_stable(numbers(found), by_number(), p) && out@ == at_positions(found, p);
    let mut k: usize = 0;
    while k < out.len() && out[k].region <= r.region
        invariant
            out@ == at_positions(found, p),
            k <= out@.len(),
            forall|j: int| 0 <= j < k ==> (#[trigger] out@[j]).region <= r.region,
        decreases out.len() - k,
    {
        k += 1;
    }
    proof {
        let keys = numbers(found);
        assert forall|j: int| 0 <= j < k implies by_number()(keys[#[trigger] p[j]], r.region) by {
            assert(out@[j] == found[p[j]]);
        }
        if k < p.len() {
            assert(out@[k as int] == found[p[k as int]]);
        }
        assert(is_order(by_number()));
        lemma_insert(keys, by_number(), p, r.region, k as int);
        lemma_insert_value(found, p, r, k as int);
        assert(numbers(found.push(r)) =~= keys.push(r.region));
    }
    out.insert(k, r);
    assert(out@ == at_positions(found.push(r), p.insert(k as int, found.len() as int)));
}

/// Sorts regions by their numbers; equal numbers keep their order.
fn sort_regions(list: Vec<DiscoveredRegion>) -> (r: Vec<DiscoveredRegion>)
    ensures
        sorted_by_region(list@, r@),
{
    let mut out: Vec<DiscoveredRegion> = Vec::new();
    proof {
        let p = Seq::<int>::empty();
        assert(is_stable(numbers(list@.take(0)), by_number(), p));
        assert(out@ =~= at_positions(list@.take(0), p));
    }
    for x in it: list
        invariant
            it.seq() == list@,
            sorted_by_region(list@.take(it.index() as int), out@),
    {
        let ghost n = it.index() as int;
        insert_region(&mut out, x, Ghost(list@.take(n)));
        assert(list@.take(n + 1) =~= list@.take(n).push(x));
    }
    assert(list@.take(list@.len() as int) =~= list@);
    out
}

/// Position of the first region with a number, from `i` on.
pub open spec fn region_from(s: Seq<DiscoveredRegion>, region: u32, i: int) -> Option<int>
    decreases s.len() - i,
{
    if i < 0 || i >= s.len() {
        None
    } else if s[i].region == region {
        Some(i)
    } else {
        region_from(s, region, i + 1)
    }
}

/// Whether a list has each region of another once, as it came first, by
/// number.
pub open spec fn is_merged(found: Seq<DiscoveredRegion>, r: Seq<DiscoveredRegion>) -> bool {
    &&& forall|i: int, j: int| 0 <= i < j < r.len() ==> (#[trigger] r[i]).region < (#[trigger] r[j]).region
    &&& forall|i: int|
        0 <= i < r.len() ==> (region_from(found, (#[trigger] r[i]).region, 0) matches Some(k) && r[i] == found[k])
    &&& forall|k: int| 0 <= k < found.len() ==> region_from(r, (#[trigger] found[k]).region, 0) is Some
}

proof fn lemma_region_from(s: Seq<DiscoveredRegion>, region: u32, i: int, k: int)
    requires
        0 <= i <= k < s.len(),
        s[k].region == region,
        forall|j: int| i <= j < k ==> (#[trigger] s[j]).region != region,
    ensures
        region_from(s, region, i) == Some(k),
    decreases k - i,
{
    if i < k {
        lemma_region_from(s, region, i + 1, k);
    }
}

proof fn lemma_region_found(s: Seq<DiscoveredRegion>, region: u32, i: int, k: int)
    requires
        0 <= i <= k < s.len(),
        s[k].region == region,
    ensures
        region_from(s, region, i) is Some,
    decreases k - i,
{
    if i < k && s[i].region != region {
        lemma_region_found(s, region, i + 1, k);
    }
}

/// The regions that several mirrors list, by number. The mirror that comes
/// first counts.
pub fn merge_mirrors(list: Vec<DiscoveredRegion>) -> (r: Vec<DiscoveredRegion>)
    ensures
        is_merged(list@, r@),
{
    let ghost found = list@;
    let sorted = sort_regions(list);
    let ghost p = choose|p: Seq<int>| #[trigger]
        is_stable(numbers(found), by_number(), p) && sorted@ == at_positions(found, p);
    let mut out: Vec<DiscoveredRegion> = Vec::new();
    let ghost mut from: Seq<int> = Seq::empty();
    for x in it: sorted
        invariant
            it.seq() == sorted@,
            is_stable(numbers(found), by_number(), p),
            sorted@ == at_positions(found, p),
            from.len() == out@.len(),
            forall|i: int|
                0 <= i < from.len() ==> 0 <= #[trigger] from[i] < it.index() && out@[i] == sorted@[from[i]] && (forall|j: int|
                    0 <= j < from[i] ==> (#[trigger] sorted@[j]).region != out@[i].region),
            forall|i: int, j: int| 0 <= i < j < out@.len() ==> (#[trigger] out@[i]).region < (#[trigger] out@[j]).region,
            it.index() > 0 ==> out@.len() > 0 && out@.last().region == sorted@[it.index() - 1].region,
            forall|k: int| 0 <= k < it.index() ==> region_from(out@, (#[trigger] sorted@[k]).region, 0) is Some,
    {
        let ghost n = it.index() as int;
        let ghost before = out@;
        let last: Option<u32> = if out.len() == 0 {
            None
        } else {
            Some(out[out.len() - 1].region)
        };
        let again: bool = match last {
            Some(l) => l == x.region,
            None => false,
        };
        proof {
            assert forall|j: int| 0 <= j < n implies (#[trigger] sorted@[j]).region <= x.region by {
                assert(sorted@[j] == found[p[j]] && sorted@[n] == found[p[n]]);
                assert(by_number()(numbers(found)[p[j]], numbers(found)[p[n]]));
            }
        }
        if !again {
            proof {
                assert forall|j: int| 0 <= j < n implies (#[trigger] sorted@[j]).region != x.region by {
                    if sorted@[j].region == x.region {
                        assert(sorted@[j] == found[p[j]] && sorted@[n - 1] == found[p[n - 1]]);
                        if j < n - 1 {
                            assert(by_number()(numbers(found)[p[j]], numbers(found)[p[n - 1]]));
                        }
                        assert(sorted@[n - 1].region == x.region);
                    }
                }
                assert forall|i: int| 0 <= i < before.len() implies (#[trigger] before[i]).region < x.region by {
                    assert(before[i] == sorted@[from[i]]);
                }
            }
            out.push(x);
            proof {
                from = from.push(n);
                assert forall|k: int| 0 <= k < n + 1 implies region_from(out@, (#[trigger] sorted@[k]).region, 0) is Some by {
                    if k < n {
                        lemma_still_found(before, x, sorted@[k].region, 0);
                    } else {
                        lemma_region_found(out@, x.region, 0, before.len() as int);
                    }
                }
            }
        } else {
            proof {
                lemma_region_found(out@, x.region, 0, out@.len() - 1);
            }
        }
    }
    proof {
        assert forall|i: int| 0 <= i < out@.len() implies (region_from(found, (#[trigger] out@[i]).region, 0) matches Some(k)
            && out@[i] == found[k]) by {
            let s = from[i];
            let k = p[s];
            assert(out@[i] == sorted@[s] && sorted@[s] == found[k]);
            assert forall|j: int| 0 <= j < k implies (#[trigger] found[j]).region != out@[i].region by {
                if found[j].region == out@[i].region {
                    let q = lemma_position_of(numbers(found), p, j);
                    assert(sorted@[q] == found[p[q]]);
                    if q > s {
                        assert(numbers(found)[p[s]] == numbers(found)[p[q]]);
                        assert(p[s] < p[q]);
                    }
                }
            }
            lemma_region_from(found, out@[i].region, 0, k);
        }
        assert forall|k: int| 0 <= k < found.len() implies region_from(out@, (#[trigger] found[k]).region, 0) is Some by {
            let q = lemma_position_of(numbers(found), p, k);
            assert(sorted@[q] == found[p[q]]);
        }
    }
    out
}

proof fn lemma_still_found(s: Seq<DiscoveredRegion>, x: DiscoveredRegion, region: u32, i: int)
    requires
        0 <= i,
        region_from(s, region, i) is Some,
    ensures
        region_from(s.push(x), region, i) is Some,
    decreases s.len() - i,
{
    if i < s.len() && s[i].region != region {
        lemma_still_found(s, x, region, i + 1);
    }
}

/// Every position stands somewhere in a stable order.
proof fn lemma_position_of(keys: Seq<u32>, p: Seq<int>, k: int) -> (q: int)
    requires
        is_stable(keys, by_number(), p),
        0 <= k < keys.len(),
    ensures
        0 <= q < p.len(),
        p[q] == k,
{
    let all = Set::new(|i: int| 0 <= i < keys.len());
    vstd::set_lib::lemma_int_range(0, keys.len() as int);
    assert(vstd::set_lib::set_int_range(0, keys.len() as int) =~= all);
    p.unique_seq_to_set();
    vstd::seq_lib::seq_to_set_is_finite(p);
    assert(p.to_set().subset_of(all)) by {
        assert forall|i: int| p.to_set().contains(i) implies all.contains(i) by {
            let j = choose|j: int| 0 <= j < p.len() && p[j] == i;
            assert(0 <= p[j] < keys.len());
        }
    }
    vstd::set_lib::lemma_subset_equality(p.to_set(), all);
    assert(p.to_set().contains(k));
    choose|j: int| 0 <= j < p.len() && p[j] == k
}

/// Regions that a list does not have.
pub open spec fn not_in(mirrors: Seq<DiscoveredRegion>) -> spec_fn(DiscoveredRegion) -> bool {
    |r: DiscoveredRegion| region_from(mirrors, r.region, 0) is None
}

/// Whether a list has a region.
fn has_region(list: &Vec<DiscoveredRegion>, region: u32) -> (r: bool)
    ensures
        r <==> region_from(list@, region, 0) is Some,
{
    let mut i: usize = 0;
    while i < list.len()
        invariant
            i <= list@.len(),
            region_from(list@, region, 0) == region_from(list@, region, i as int),
        decreases list.len() - i,
    {
        if list[i].region == region {
            return true;
        }
        i += 1;
    }
    false
}

/// Brings the regions that mirrors list and those that unit files start
/// together, by number. Where a mirror lists a region, the unit file does not
/// count.
pub fn merge_regions(mirrors: Vec<DiscoveredRegion>, units: Vec<DiscoveredRegion>) -> (r: Vec<DiscoveredRegion>)
    ensures
        sorted_by_region(mirrors@ + units@.filter(not_in(mirrors@)), r@),
{
    let ghost m = mirrors@;
    let mut kept: Vec<DiscoveredRegion> = Vec::new();
    proof {
        reveal(Seq::filter);
        assert(units@.take(0).filter(not_in(m)) =~= Seq::<DiscoveredRegion>::empty());
    }
    for x in it: units
        invariant
            it.seq() == units@,
            m == mirrors@,
            kept@ == units@.take(it.index() as int).filter(not_in(m)),
    {
        let ghost n = it.index() as int;
        proof {
            reveal(Seq::filter);
            assert(units@.take(n + 1).drop_last() =~= units@.take(n));
        }
        if !has_region(&mirrors, x.region) {
            kept.push(x);
        }
    }
    assert(units@.take(units@.len() as int) =~= units@);
    let mut all = mirrors;
    all.append(&mut kept);
    sort_regions(all)
}

/// A region that a mirror lists and a unit file starts too is the one of the
/// mirror: no region that is kept of the unit files has its number.
pub proof fn law_mirrors_take_precedence(mirrors: Seq<DiscoveredRegion>, units: Seq<DiscoveredRegion>, i: int, k: int)
    requires
        0 <= i < mirrors.len(),
        0 <= k < units.filter(not_in(mirrors)).len(),
    ensures
        units.filter(not_in(mirrors))[k].region != mirrors[i].region,
{
    let u = units.filter(not_in(mirrors))[k];
    units.lemma_filter_pred(not_in(mirrors), k);
    if u.region == mirrors[i].region {
        lemma_region_found(mirrors, u.region, 0, i);
    }
}

/// The parts of a text between commas, from `i` on: the part that `i` belongs
/// to starts at `start`.
pub open spec fn parts_from(s: Seq<char>, start: int, i: int) -> Seq<Seq<char>>
    decreases s.len() - i,
{
    if i >= s.len() {
        seq![s.subrange(start, s.len() as int)]
    } else if s[i] == ',' {
        seq![s.subrange(start, i)] + parts_from(s, i + 1, i + 1)
    } else {
        parts_from(s, start, i + 1)
    }
}

/// Texts with something beside white space.
pub open spec fn not_blank() -> spec_fn(Seq<char>) -> bool {
    |t: Seq<char>| trim(t).len() > 0
}

/// The URLs in a list between commas, without white space around them and
/// without empty ones.
pub open spec fn urls_in(s: Seq<char>) -> Seq<Seq<char>> {
    parts_from(s, 0, 0).filter(not_blank()).map_values(|t: Seq<char>| trim(t))
}

/// The filtered and trimmed parts after one more part.
proof fn lemma_one_more_part(part: Seq<char>, rest: Seq<Seq<char>>)
    ensures
        (seq![part] + rest).filter(not_blank()).map_values(|t: Seq<char>| trim(t)) == (if trim(part).len() > 0 {
            seq![trim(part)]
        } else {
            Seq::<Seq<char>>::empty()
        }) + rest.filter(not_blank()).map_values(|t: Seq<char>| trim(t)),
{
    let f = not_blank();
    let g = |t: Seq<char>| trim(t);
    Seq::filter_distributes_over_add(seq![part], rest, f);
    reveal(Seq::filter);
    assert(seq![part].drop_last() =~= Seq::<Seq<char>>::empty());
    assert(Seq::<Seq<char>>::empty().filter(f) =~= Seq::<Seq<char>>::empty());
    if trim(part).len() > 0 {
        assert(seq![part].filter(f) =~= seq![part]);
    } else {
        assert(seq![part].filter(f) =~= Seq::<Seq<char>>::empty());
    }
    assert((seq![part].filter(f) + rest.filter(f)).map_values(g) =~= seq![part].filter(f).map_values(g) + rest.filter(
        f,
    ).map_values(g));
    assert(trim(part).len() > 0 ==> seq![part].map_values(g) =~= seq![trim(part)]);
    assert(Seq::<Seq<char>>::empty().map_values(g) =~= Seq::<Seq<char>>::empty());
}

/// The URLs in a list between commas. A list without one is an error.
pub fn mirrors_urls(list: &str) -> (r: Result<Vec<String>, DiscoverError>)
    ensures
        match r {
            Ok(urls) => texts(urls@) == urls_in(list@) && urls@.len() > 0,
            Err(e) => e is NoMirrorsUrl && urls_in(list@).len() == 0,
        },
{
    let chars = chars_of(list);
    let ghost g = |t: Seq<char>| trim(t);
    let ghost all = urls_in(list@);
    let len: usize = chars.len();
    let mut out: Vec<String> = Vec::new();
    let mut start: usize = 0;
    let mut i: usize = 0;
    assert(texts(out@) + all =~= all);
    while i < len
        invariant
            chars@ == list@,
            len == chars@.len(),
            start <= i <= len,
            all == urls_in(list@),
            g == (|t: Seq<char>| trim(t)),
            texts(out@) + parts_from(list@, start as int, i as int).filter(not_blank()).map_values(g) == all,
        decreases len - i,
    {
        if chars[i] == ',' {
            let ghost before = texts(out@);
            let part = vstd::slice::slice_subrange(chars.as_slice(), start, i);
            let t = trimmed(part);
            proof {
                lemma_one_more_part(part@, parts_from(list@, i + 1, i + 1));
            }
            if t.len() > 0 {
                out.push(text_of(t));
                assert(texts(out@) =~= before + seq![t@]);
            }
            start = i + 1;
            proof {
                assert(texts(out@) + parts_from(list@, i + 1, i + 1).filter(not_blank()).map_values(g) =~= all);
            }
        }
        i += 1;
    }
    let ghost before = texts(out@);
    let part = vstd::slice::slice_subrange(chars.as_slice(), start, len);
    let t = trimmed(part);
    proof {
        let none = Seq::<Seq<char>>::empty();
        lemma_one_more_part(part@, none);
        reveal(Seq::filter);
        assert(none.filter(not_blank()).map_values(g) =~= none);
        assert(seq![part@] + none =~= seq![part@]);
        assert(parts_from(list@, start as int, i as int) == seq![part@]);
    }
    if t.len() > 0 {
        out.push(text_of(t));
        assert(texts(out@) =~= before + seq![t@]);
    }
    assert(texts(out@) =~= all);
    assert(all.len() == out@.len());
    if out.len() == 0 {
        Err(DiscoverError::NoMirrorsUrl)
    } else {
        Ok(out)
    }
}

/// The regions of the unit files are those of the sources that are named after a
/// region, each with the database and the ports of its source, on this host.
pub proof fn law_unit_regions_follow_their_sources(sources: Seq<DiscoveredSource>, out: Seq<DiscoveredRegion>, i: int)
    requires
        are_unit_regions(sources.filter(regional()), out),
    ensures
        0 <= i < out.len() ==> exists|k: int| 0 <= k < sources.len() && is_unit_region(#[trigger] sources[k], out[i]),
        0 <= i < sources.len() && sources[i].name@ != "global"@ && region_in_name(sources[i].name@) is Some ==> exists|
            k: int,
        |
            0 <= k < out.len() && tells_unit(sources[i], #[trigger] out[k]),
{
    let kept = sources.filter(regional());
    if 0 <= i < out.len() {
        assert(is_unit_region(kept[i], out[i]));
        assert(kept.contains(kept[i]));
        sources.lemma_filter_contains_rev(regional(), kept[i]);
        let k = choose|k: int| 0 <= k < sources.len() && sources[k] == kept[i];
        assert(is_unit_region(sources[k], out[i]));
    }
    if 0 <= i < sources.len() && sources[i].name@ != "global"@ && region_in_name(sources[i].name@) is Some {
        assert(regional()(sources[i]));
        sources.lemma_filter_contains(regional(), i);
        let k = choose|k: int| 0 <= k < kept.len() && kept[k] == sources[i];
        assert(is_unit_region(kept[k], out[k]));
        assert(tells_unit(sources[i], out[k]));
    }
}

/// Whether a region has the number, the database and the ports of a source.
pub open spec fn tells_unit(s: DiscoveredSource, r: DiscoveredRegion) -> bool {
    &&& region_in_name(s.name@) == Some(r.region)
    &&& r.database@ == s.database@
    &&& r.dashboard_port == Some(s.dashboard_port)
    &&& url_text("ws://"@ + ("127.0.0.1:"@ + decimal(s.frontend_port as nat))) == Some(r.bind_url@)
    &&& r.backend == RegionBackend::RelayFleet
    &&& r.mirrors_url is None
}

/// Whether a region has the number of a database, that database, and an address
/// at the host that was given, or at the port of the database on this host.
pub open spec fn tells_mirror(db: Seq<char>, list: Seq<char>, host: Option<Seq<char>>, r: DiscoveredRegion) -> bool {
    &&& region_in_name(db) == Some(r.region)
    &&& r.database@ == db
    &&& url_text(
        "ws://"@ + match host {
            Some(h) => h,
            None => "127.0.0.1:"@ + decimal(port_of(db) as nat),
        },
    ) == Some(r.bind_url@)
    &&& r.dashboard_port is None
    &&& r.backend == RegionBackend::PublicMirror
    &&& r.mirrors_url matches Some(u)
    &&& u@ == list
}

/// A mirror gives a region for each database of its list that is named after a
/// region, and for nothing else; the database of the whole world is none.
pub proof fn law_mirror_regions_follow_the_list(
    entries: Seq<Json>,
    list: Seq<char>,
    host: Option<&str>,
    out: Seq<DiscoveredRegion>,
    i: int,
    t: String,
)
    requires
        are_listed_regions(entries.filter(listed()), list, host, out),
    ensures
        0 <= i < entries.len() && has_member(entries[i], "database"@, Json::Text(t)) && t@ != "bitcraft-live-global"@
            && region_in_name(t@) is Some ==> exists|k: int|
            0 <= k < out.len() && tells_mirror(t@, list, given(host), #[trigger] out[k]),
        0 <= i < out.len() ==> out[i].database@ != "bitcraft-live-global"@ && tells_mirror(
            out[i].database@,
            list,
            given(host),
            out[i],
        ) && exists|k: int| 0 <= k < entries.len() && database_in(#[trigger] entries[k]) == out[i].database@,
{
    let kept = entries.filter(listed());
    if 0 <= i < entries.len() && has_member(entries[i], "database"@, Json::Text(t)) && t@ != "bitcraft-live-global"@
        && region_in_name(t@) is Some {
        law_members_are_found_by_name(entries[i], "database"@, Json::Text(t));
        lemma_named_region_is_no_blank(t@);
        assert(listed()(entries[i]));
        entries.lemma_filter_contains(listed(), i);
        let k = choose|k: int| 0 <= k < kept.len() && kept[k] == entries[i];
        assert(is_listed_region(kept[k], list, host, out[k]));
        assert(tells_mirror(t@, list, given(host), out[k]));
    }
    if 0 <= i < out.len() {
        assert(is_listed_region(kept[i], list, host, out[i]));
        entries.lemma_filter_pred(listed(), i);
        assert(kept.contains(kept[i]));
        entries.lemma_filter_contains_rev(listed(), kept[i]);
        let k = choose|k: int| 0 <= k < entries.len() && entries[k] == kept[i];
        assert(database_in(entries[k]) == out[i].database@);
    }
}

proof fn lemma_named_region_is_no_blank(t: Seq<char>)
    requires
        region_in_name(t) is Some,
    ensures
        t.len() > 0,
{
    reveal_strlit("bitcraft-live-");
}

/// The list of mirrors is the member `mirrors` of what a mirror answers.
pub proof fn law_mirrors_are_listed_under_their_name(body: Json, a: Vec<Json>)
    ensures
        has_member(body, "mirrors"@, Json::Array(a)) ==> mirror_list(body) == Some(a@),
        lacks_member(body, "mirrors"@) ==> mirror_list(body) is None,
{
    law_members_are_found_by_name(body, "mirrors"@, Json::Array(a));
}

/// Brought together, the regions are in the order of their numbers. Each that a
/// mirror lists is there, each of a unit file is there unless a mirror lists its
/// number, and there is no other.
pub proof fn law_regions_are_brought_together(
    mirrors: Seq<DiscoveredRegion>,
    units: Seq<DiscoveredRegion>,
    r: Seq<DiscoveredRegion>,
    x: DiscoveredRegion,
    i: int,
    j: int,
)
    requires
        sorted_by_region(mirrors + units.filter(not_in(mirrors)), r),
    ensures
        0 <= i < j < r.len() ==> r[i].region <= r[j].region,
        r.contains(x) <==> mirrors.contains(x) || units.contains(x) && forall|k: int|
            0 <= k < mirrors.len() ==> (#[trigger] mirrors[k]).region != x.region,
{
    let kept = units.filter(not_in(mirrors));
    let found = mirrors + kept;
    let p = choose|p: Seq<int>| #[trigger]
        is_stable(numbers(found), by_number(), p) && r == at_positions(found, p);
    if 0 <= i < j < r.len() {
        assert(r[i] == found[p[i]] && r[j] == found[p[j]]);
        assert(by_number()(numbers(found)[p[i]], numbers(found)[p[j]]));
    }
    if r.contains(x) {
        let k = choose|k: int| 0 <= k < r.len() && r[k] == x;
        assert(r[k] == found[p[k]]);
        if p[k] < mirrors.len() {
            assert(mirrors[p[k]] == x);
        } else {
            let u = p[k] - mirrors.len();
            assert(kept[u] == x);
            units.lemma_filter_contains_rev(not_in(mirrors), x);
            assert forall|m: int| 0 <= m < mirrors.len() implies (#[trigger] mirrors[m]).region != x.region by {
                law_mirrors_take_precedence(mirrors, units, m, u);
            }
        }
    }
    if mirrors.contains(x) {
        let k = choose|k: int| 0 <= k < mirrors.len() && mirrors[k] == x;
        assert(found[k] == x);
        let q = lemma_position_of(numbers(found), p, k);
        assert(r[q] == x);
    } else if units.contains(x) && forall|k: int| 0 <= k < mirrors.len() ==> (#[trigger] mirrors[k]).region
        != x.region {
        lemma_region_not_found(mirrors, x.region, 0);
        let k = choose|k: int| 0 <= k < units.len() && units[k] == x;
        units.lemma_filter_contains(not_in(mirrors), k);
        let u = choose|u: int| 0 <= u < kept.len() && kept[u] == x;
        assert(found[mirrors.len() + u] == x);
        let q = lemma_position_of(numbers(found), p, mirrors.len() + u);
        assert(r[q] == x);
    }
}

proof fn lemma_region_not_found(s: Seq<DiscoveredRegion>, region: u32, i: int)
    requires
        0 <= i,
        forall|k: int| i <= k < s.len() ==> (#[trigger] s[k]).region != region,
    ensures
        region_from(s, region, i) is None,
    decreases s.len() - i,
{
    if i < s.len() {
        lemma_region_not_found(s, region, i + 1);
    }
}

/// Of several mirrors that list a region, the first one counts: what is kept is
/// in the order of the numbers, has each number once, and comes before all others
/// of its number.
pub proof fn law_the_first_mirror_counts(found: Seq<DiscoveredRegion>, r: Seq<DiscoveredRegion>, k: int)
    requires
        is_merged(found, r),
        0 <= k < found.len(),
        forall|j: int| 0 <= j < k ==> (#[trigger] found[j]).region != found[k].region,
    ensures
        r.contains(found[k]),
        forall|i: int| 0 <= i < r.len() && (#[trigger] r[i]).region == found[k].region ==> r[i] == found[k],
        forall|i: int, j: int| 0 <= i < j < r.len() ==> (#[trigger] r[i]).region < (#[trigger] r[j]).region,
{
    let region = found[k].region;
    lemma_region_from(found, region, 0, k);
    lemma_found_is_there(r, region, 0);
    let i = region_from(r, region, 0)->Some_0;
    assert(r[i] == found[k]);
}

proof fn lemma_found_is_there(s: Seq<DiscoveredRegion>, region: u32, i: int)
    requires
        0 <= i,
    ensures
        region_from(s, region, i) matches Some(k) ==> i <= k < s.len() && s[k].region == region,
    decreases s.len() - i,
{
    if i < s.len() && s[i].region != region {
        lemma_found_is_there(s, region, i + 1);
    }
}

/// A list of URLs has those before a comma and those behind it. A text without a
/// comma is one URL, without the white space around it, or none if it is blank.
pub proof fn law_urls_stand_between_commas(a: Seq<char>, b: Seq<char>)
    requires
        !a.contains(','),
    ensures
        urls_in(a) == (if trim(a).len() > 0 {
            seq![trim(a)]
        } else {
            Seq::<Seq<char>>::empty()
        }),
        urls_in(a + seq![','] + b) == urls_in(a) + urls_in(b),
{
    let s = a + seq![','] + b;
    let none = Seq::<Seq<char>>::empty();
    assert forall|i: int| 0 <= i < a.len() implies a[i] != ',' by {
        assert(a.contains(a[i]));
    }
    lemma_part_ends(a, 0, 0, a.len() as int);
    assert(a.subrange(0, a.len() as int) =~= a);
    assert(parts_from(a, 0, 0) == seq![a]);
    lemma_one_more_part(a, none);
    reveal(Seq::filter);
    assert(none.filter(not_blank()).map_values(|t: Seq<char>| trim(t)) =~= none);
    assert(seq![a] + none =~= seq![a]);
    lemma_part_ends(s, 0, 0, a.len() as int);
    let n = a.len() as int + 1;
    assert(s[n - 1] == ',');
    assert(s.subrange(0, n - 1) =~= a);
    lemma_parts_shift(s, n, n, n);
    assert(s.skip(n) =~= b);
    assert(parts_from(s, 0, 0) == seq![a] + parts_from(b, 0, 0));
    lemma_one_more_part(a, parts_from(b, 0, 0));
}

/// A part goes up to the next comma.
proof fn lemma_part_ends(s: Seq<char>, start: int, i: int, n: int)
    requires
        0 <= i <= n <= s.len(),
        forall|k: int| i <= k < n ==> s[k] != ',',
    ensures
        parts_from(s, start, i) == parts_from(s, start, n),
    decreases n - i,
{
    if i < n {
        lemma_part_ends(s, start, i + 1, n);
    }
}

/// Parts from some place on are those of what follows.
proof fn lemma_parts_shift(s: Seq<char>, n: int, start: int, i: int)
    requires
        0 <= n <= start <= i <= s.len(),
    ensures
        parts_from(s, start, i) == parts_from(s.skip(n), start - n, i - n),
    decreases s.len() - i,
{
    let t = s.skip(n);
    if i >= s.len() {
        assert(s.subrange(start, s.len() as int) =~= t.subrange(start - n, t.len() as int));
    } else if s[i] == ',' {
        assert(t[i - n] == ',');
        assert(s.subrange(start, i) =~= t.subrange(start - n, i - n));
        lemma_parts_shift(s, n, i + 1, i + 1);
    } else {
        assert(t[i - n] != ',');
        lemma_parts_shift(s, n, start, i + 1);
    }
}

} // verus!
