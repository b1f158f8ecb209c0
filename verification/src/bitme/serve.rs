//! Answers to what a phone asks.

use vstd::prelude::*;

use crate::bitme::global::{resolves, same_name, BitmeGlobalStore, GlobalModel, ResolvedPlayer};
use crate::bitme::hub::{BitmeHub, HubState};
use crate::bitme::region_store::{
    all_wf, find_shard, home_from, law_player_region_is_held, locate_player_region, region_with, shard_from,
    shard_player_info, tells_home, RegionStore,
};
use crate::bitme::session::{actions_of, build_session_snapshot, held, is_snapshot, targets_of, SessionSnapshot};
use crate::bitme::window::{
    anchor, elevation_fits, elevation_window_response, is_elevation_window, law_world_windows_fit, maps_of,
    resolve_world_anchor, resource_body, resource_window_response, unavailable, window_fits, AnchorError, RegionMaps,
    WindowReply,
};
use crate::decode::rows::ResourceDescRow;
use crate::id_table::key32;
use crate::interest::{InterestHub, InterestModel};
use crate::roads::allowlist::HarvestableIds;
use crate::roads::catalog::{CatalogModel, GlobalRoadsCatalog};
use crate::roads::decode::PavingDescRow;
use crate::roads::coords::{in_region, REGION_SIDE};
use crate::roads::grid::OVERLAY_CELLS;
use crate::roads::join::known;
use crate::roads::resource_map::{
    content, is_harvestable_resource_id, known_content, paving_word, word_index, word_is_paving,
};
use crate::roads::store::{GridModel, RoadsRegionGrid, RoadsRegionHandle};
use crate::text::{
    capped, chars_of, decimal, law_decimal_round_trip, parse_u32, parse_u64, text_of, trim, trimmed, unsigned_number,
};

verus! {

/// Largest number of streams of resource changes.
pub const RESOURCE_WS_MAX_CONNECTIONS: u64 = 2048;

/// A character of ASCII in lower case.
pub open spec fn ascii_lower(c: char) -> char {
    if 'A' <= c <= 'Z' {
        ((c as u32) + 32) as char
    } else {
        c
    }
}

/// Text in lower case.
pub uninterp spec fn lower_text(s: Seq<char>) -> Seq<char>;

/// `str::to_lowercase`: text in Unicode lower case, under the name
/// [`lower_text`]. In text of ASCII the letters from `A` to `Z` become their
/// lower-case letter and all else stays; other text is left to the name.
#[verifier::external_body]
fn lower(s: &str) -> (r: String)
    ensures
        r@ == lower_text(s@),
        (forall|i: int| 0 <= i < s@.len() ==> (#[trigger] s@[i] as u32) < 128) ==> r@ == s@.map_values(|c: char| ascii_lower(c)),
{
    s.to_lowercase()
}

/// A player that a name leads to.
#[derive(Debug)]
pub struct PlayerReply {
    pub entity_id: u64,
    /// The name as the player writes it, where a region has it.
    pub username: String,
    pub username_lowercase: String,
    pub identity: Option<String>,
    pub region_id: Option<u32>,
    pub region_name: Option<String>,
    pub host: Option<String>,
    pub module: Option<String>,
    pub signed_in: Option<bool>,
}

/// What a question for a name is answered.
#[derive(Debug)]
pub enum ResolveReply {
    /// No name was given.
    NoName,
    Unknown { name_lowercase: String },
    Found(PlayerReply),
}

/// Text that is not empty.
pub open spec fn filled(s: Seq<char>) -> Option<Seq<char>> {
    if s.len() == 0 {
        None
    } else {
        Some(s)
    }
}

/// Name, host and module of a region, for a player whose region is known only
/// from the rows of a region.
pub open spec fn home_links(m: GlobalModel, region: u32) -> (Option<Seq<char>>, Seq<char>, Seq<char>) {
    let connection = known(m.connection, (region % 0x100) as u64);
    (
        match known(m.region_name, (region % 0x1_0000) as u64) {
            Some(s) => Some(s@),
            None => None,
        },
        match connection {
            Some(c) => c.0@,
            None => Seq::empty(),
        },
        match connection {
            Some(c) => c.1@,
            None => Seq::empty(),
        },
    )
}

/// Whether a reply tells of the player that a name leads to. Where the region
/// is not known from the identity, it is the first one with rows of the
/// player; its rows give the name as written and, if need be, the sign-in
/// state.
pub open spec fn is_player_reply(m: GlobalModel, shards: Seq<&RegionStore>, p: ResolvedPlayer, r: PlayerReply) -> bool {
    let home = home_from(shards, p.entity_id, 0);
    let links = if p.region_id is None && home is Some {
        home_links(m, shards[home->Some_0].region)
    } else {
        (
            match p.region_name {
                Some(s) => Some(s@),
                None => None,
            },
            p.host@,
            p.module@,
        )
    };
    &&& r.entity_id == p.entity_id
    &&& r.username_lowercase@ == p.username_lowercase@
    &&& r.username@ == match home {
        Some(i) => match known(shards[i].player_username@, p.entity_id) {
            Some(name) => name@,
            None => p.username_lowercase@,
        },
        None => p.username_lowercase@,
    }
    &&& r.identity == p.identity_hex
    &&& r.region_id == match p.region_id {
        Some(region) => Some(region),
        None => match home {
            Some(i) => Some(shards[i].region),
            None => None,
        },
    }
    &&& same_name(r.region_name, links.0)
    &&& same_name(r.host, filled(links.1))
    &&& same_name(r.module, filled(links.2))
    &&& r.signed_in == match p.signed_in {
        Some(b) => Some(b),
        None => match home {
            Some(i) => known(shards[i].player_state@, p.entity_id),
            None => None,
        },
    }
}

/// Text that is not empty.
fn some_text(s: String) -> (r: Option<String>)
    ensures
        same_name(r, filled(s@)),
{
    let chars = chars_of(s.as_str());
    if chars.len() == 0 {
        None
    } else {
        Some(s)
    }
}

/// Fills in what the regions tell of a player.
pub fn complete_player(store: &BitmeGlobalStore, shards: &[&RegionStore], p: ResolvedPlayer) -> (r: PlayerReply)
    requires
        store.wf(),
        all_wf(shards@),
        p.region_id is None ==> p.host@ == Seq::<char>::empty() && p.module@ == Seq::<char>::empty(),
    ensures
        is_player_reply(store@, shards@, p, r),
{
    let ghost asked = p;
    let info = shard_player_info(shards, p.entity_id);
    let (region_id, region_name, host, module) = match (p.region_id, &info) {
        (None, Some(shard)) => {
            let (name, host, module) = store.region_info(shard.region);
            (
                Some(shard.region),
                name,
                match host {
                    Some(h) => h,
                    None => p.host,
                },
                match module {
                    Some(m) => m,
                    None => p.module,
                },
            )
        },
        _ => (p.region_id, p.region_name, p.host, p.module),
    };
    let (shown, shard_signed): (Option<String>, Option<bool>) = match info {
        Some(shard) => (
            match shard.username {
                Some(name) => Some(name.clone()),
                None => None,
            },
            shard.signed_in,
        ),
        None => (None, None),
    };
    let username: String = match shown {
        Some(name) => name,
        None => p.username_lowercase.clone(),
    };
    let signed_in: Option<bool> = match p.signed_in {
        Some(b) => Some(b),
        None => shard_signed,
    };
    PlayerReply {
        entity_id: p.entity_id,
        username,
        username_lowercase: p.username_lowercase,
        identity: p.identity_hex,
        region_id,
        region_name,
        host: some_text(host),
        module: some_text(module),
        signed_in,
    }
}

/// Whether a reply answers the question for a name in lower case.
pub open spec fn answers(m: GlobalModel, shards: Seq<&RegionStore>, name: Seq<char>, r: ResolveReply) -> bool {
    match r {
        ResolveReply::NoName => false,
        ResolveReply::Unknown { name_lowercase } => !m.entity_of.dom().contains(name) && name_lowercase@ == name,
        ResolveReply::Found(p) => m.entity_of.dom().contains(name) && exists|q: ResolvedPlayer|
            #[trigger] resolves(m, name, q) && is_player_reply(m, shards, q, p),
    }
}

/// Answers the question for a name in lower case.
pub fn resolve_name(store: &BitmeGlobalStore, shards: &[&RegionStore], name: String) -> (r: ResolveReply)
    requires
        store.wf(),
        all_wf(shards@),
    ensures
        answers(store@, shards@, name@, r),
{
    match store.resolve(name.as_str()) {
        Some(p) => {
            let ghost q = p;
            assert(resolves(store@, name@, q));
            let reply = complete_player(store, shards, p);
            assert(is_player_reply(store@, shards@, q, reply));
            ResolveReply::Found(reply)
        },
        None => ResolveReply::Unknown { name_lowercase: name },
    }
}

/// Answers the question for a name in any case, with or without white space
/// around it.
pub fn bitme_resolve(store: &BitmeGlobalStore, shards: &[&RegionStore], name: Option<&str>) -> (r: ResolveReply)
    requires
        store.wf(),
        all_wf(shards@),
    ensures
        match name {
            Some(s) => if trim(s@).len() == 0 {
                r is NoName
            } else {
                answers(store@, shards@, lower_text(trim(s@)), r)
            },
            None => r is NoName,
        },
{
    let chars = match name {
        Some(s) => chars_of(s),
        None => {
            return ResolveReply::NoName;
        },
    };
    let asked = trimmed(chars.as_slice());
    if asked.len() == 0 {
        return ResolveReply::NoName;
    }
    let text = text_of(asked);
    resolve_name(store, shards, lower(text.as_str()))
}

/// First maps of a region, from `i` on.
pub open spec fn grid_from(grids: Seq<RoadsRegionHandle>, region: u32, i: int) -> Option<int>
    decreases grids.len() - i,
{
    if i < 0 || i >= grids.len() {
        None
    } else if grids[i].region == region {
        Some(i)
    } else {
        grid_from(grids, region, i + 1)
    }
}

/// Whether the maps of all regions are well formed.
pub open spec fn roads_wf(roads: Option<&[RoadsRegionHandle]>) -> bool {
    roads matches Some(grids) ==> forall|i: int| 0 <= i < grids@.len() ==> (#[trigger] grids@[i]).wf()
}

/// The maps of a region.
pub open spec fn found_maps(roads: Option<&[RoadsRegionHandle]>, region: u32) -> Option<GridModel> {
    match roads {
        Some(grids) => match grid_from(grids@, region, 0) {
            Some(i) => Some(grids@[i].grid@),
            None => None,
        },
        None => None,
    }
}

/// Whether maps are what a request for a region finds.
pub open spec fn is_lookup(roads: Option<&[RoadsRegionHandle]>, region: u32, maps: RegionMaps) -> bool {
    match maps {
        RegionMaps::Off => roads is None,
        RegionMaps::Missing => roads is Some && found_maps(roads, region) is None,
        RegionMaps::Held(g) => found_maps(roads, region) == Some(g@),
    }
}

/// The maps of a region, if maps are kept and the region has some.
pub fn roads_region<'a>(roads: Option<&[RoadsRegionHandle<'a>]>, region: u32) -> (r: RegionMaps<'a>)
    requires
        roads_wf(roads),
    ensures
        is_lookup(roads, region, r),
        maps_of(r, region),
{
    let grids = match roads {
        Some(g) => g,
        None => {
            return RegionMaps::Off;
        },
    };
    let mut i: usize = 0;
    while i < grids.len()
        invariant
            roads == Some(grids),
            roads_wf(roads),
            i <= grids@.len(),
            grid_from(grids@, region, 0) == grid_from(grids@, region, i as int),
        decreases grids.len() - i,
    {
        let h: RoadsRegionHandle<'a> = grids[i];
        if h.region == region {
            return RegionMaps::Held(h.grid);
        }
        i += 1;
    }
    RegionMaps::Missing
}

/// Maps that were found, as an option.
fn kept<'a>(maps: RegionMaps<'a>) -> (r: Option<&'a RoadsRegionGrid>)
    ensures
        match maps {
            RegionMaps::Held(g) => r == Some(g),
            _ => r is None,
        },
{
    match maps {
        RegionMaps::Held(g) => Some(g),
        _ => None,
    }
}

/// Why nothing can be told of a player.
#[derive(Debug, Clone, Copy, PartialEq, Eq, Structural)]
pub enum SessionError {
    /// The id is no 64-bit number.
    BadId,
    /// No region has rows of the player.
    NoPlayer { player: u64 },
    /// The player is not in the overworld.
    NotOnOverworld { player: u64 },
    /// There are too many streams.
    TooManyStreams,
    /// No maps are kept at all.
    NotEnabled,
    NoMap { region: u32 },
}

/// The 64-bit number that a text spells.
pub open spec fn id_in(s: Seq<char>) -> Option<u64> {
    match capped(unsigned_number(s), u64::MAX as int) {
        Some(v) => Some(v as u64),
        None => None,
    }
}

/// Whether a session was opened or kept open.
pub open spec fn touched(before: HubState, player: u64, now: u64, after: HubState) -> bool {
    let room = before.making_room(player, now);
    if room.sessions.dom().len() >= crate::bitme::hub::MAX_SESSIONS {
        exists|k: u64| room.is_opened_for(player, now, k, after)
    } else {
        after == room.opened(player, now)
    }
}

/// Tells the state of a player. Asking keeps the session open.
pub fn bitme_session<'a>(
    hub: &mut BitmeHub,
    roads: Option<&[RoadsRegionHandle]>,
    shards: &[&'a RegionStore],
    entity_id: &str,
    now: u64,
    now_unix_ms: i64,
) -> (r: Result<SessionSnapshot<'a>, SessionError>)
    requires
        old(hub).wf(),
        roads_wf(roads),
        all_wf(shards@),
    ensures
        final(hub).wf(),
        match id_in(entity_id@) {
            None => r == Err::<SessionSnapshot<'a>, SessionError>(SessionError::BadId) && final(hub)@ == old(hub)@,
            Some(player) => match region_with(shards@, player) {
                None => {
                    &&& r == Err::<SessionSnapshot<'a>, SessionError>(SessionError::NoPlayer { player })
                    &&& touched(old(hub)@, player, now, final(hub)@)
                },
                Some(region) => {
                    let s = *shards@[shard_from(shards@, region, 0)->Some_0];
                    &&& r matches Ok(snapshot)
                    &&& is_snapshot(final(hub)@, found_maps(roads, region), s, player, now_unix_ms, snapshot)
                    &&& exists|open: HubState| #[trigger]
                        touched(old(hub)@, player, now, open) && final(hub)@ == noted(
                            open,
                            targets_of(actions_of(s, player)),
                            now,
                        )
                },
            },
        },
{
    let player: u64 = match parse_u64(chars_of(entity_id).as_slice()) {
        Some(v) => v,
        None => {
            return Err(SessionError::BadId);
        },
    };
    hub.touch_session(player, now);
    let ghost open = hub@;
    assert(touched(old(hub)@, player, now, open));
    let region: u32 = match locate_player_region(shards, player) {
        Some(r) => r,
        None => {
            return Err(SessionError::NoPlayer { player });
        },
    };
    proof {
        law_player_region_is_held(shards@, player);
    }
    let s: &'a RegionStore = match find_shard(shards, region) {
        Some(s) => s,
        None => {
            return Err(SessionError::NoPlayer { player });
        },
    };
    let maps = kept(roads_region(roads, region));
    let snapshot = build_session_snapshot(hub, maps, s, player, now, now_unix_ms);
    assert(hub@ == noted(open, targets_of(actions_of(*s, player)), now));
    Ok(snapshot)
}

/// The hub after it noted targets.
pub open spec fn noted(h: HubState, targets: Seq<u64>, now: u64) -> HubState {
    HubState { targets: crate::bitme::hub::with_targets(h.targets, targets, now, targets.len()).0, ..h }
}

/// Where a player stands, for a window around them: the region and the tile.
pub open spec fn footing(shards: Seq<&RegionStore>, player: u64) -> Result<(u32, (i32, i32)), SessionError> {
    match region_with(shards, player) {
        None => Err(SessionError::NoPlayer { player }),
        Some(region) => match shards[shard_from(shards, region, 0)->Some_0].tile(player) {
            Some(tile) => Ok((region, tile)),
            None => Err(SessionError::NotOnOverworld { player }),
        },
    }
}

/// Where a player stands, for a window around them.
pub fn player_footing(shards: &[&RegionStore], player: u64) -> (r: Result<(u32, (i32, i32)), SessionError>)
    requires
        all_wf(shards@),
    ensures
        r == footing(shards@, player),
        r matches Ok(f) ==> -3_000_000 <= f.1.0 <= 3_000_000 && -3_000_000 <= f.1.1 <= 3_000_000,
{
    let region: u32 = match locate_player_region(shards, player) {
        Some(r) => r,
        None => {
            return Err(SessionError::NoPlayer { player });
        },
    };
    proof {
        law_player_region_is_held(shards@, player);
    }
    match find_shard(shards, region) {
        Some(s) => match s.overworld_tile(player) {
            Some(tile) => Ok((region, tile)),
            None => Err(SessionError::NotOnOverworld { player }),
        },
        None => Err(SessionError::NoPlayer { player }),
    }
}

/// What a request for the window around a player is answered.
#[derive(Debug)]
pub enum SessionWindow {
    Refused(SessionError),
    Window(WindowReply),
}

/// The window of resources around a player. Asking keeps the session open.
pub fn bitme_session_resources(
    hub: &mut BitmeHub,
    roads: Option<&[RoadsRegionHandle]>,
    shards: &[&RegionStore],
    entity_id: &str,
    now: u64,
) -> (r: SessionWindow)
    requires
        old(hub).wf(),
        roads_wf(roads),
        all_wf(shards@),
    ensures
        final(hub).wf(),
        match id_in(entity_id@) {
            None => r == SessionWindow::Refused(SessionError::BadId) && final(hub)@ == old(hub)@,
            Some(player) => {
                &&& touched(old(hub)@, player, now, final(hub)@)
                &&& match footing(shards@, player) {
                    Err(e) => r == SessionWindow::Refused(e),
                    Ok((region, tile)) => r matches SessionWindow::Window(w) && exists|maps: RegionMaps|
                        #[trigger] is_lookup(roads, region, maps) && is_window_reply(maps, region, tile, w),
                }
            },
        },
{
    let player: u64 = match parse_u64(chars_of(entity_id).as_slice()) {
        Some(v) => v,
        None => {
            return SessionWindow::Refused(SessionError::BadId);
        },
    };
    hub.touch_session(player, now);
    let (region, tile) = match player_footing(shards, player) {
        Ok(f) => f,
        Err(e) => {
            return SessionWindow::Refused(e);
        },
    };
    let maps = roads_region(roads, region);
    let ghost looked = maps;
    proof {
        if let RegionMaps::Held(g) = looked {
            lemma_footing_fits(g.region, tile);
        }
    }
    let w = resource_window_response(maps, region, tile);
    assert(is_lookup(roads, region, looked) && is_window_reply(looked, region, tile, w));
    SessionWindow::Window(w)
}

/// What a request for a window of resources answers.
pub open spec fn is_window_reply(maps: RegionMaps, region: u32, tile: (i32, i32), w: WindowReply) -> bool {
    match unavailable(maps, region) {
        Some(reply) => w == reply,
        None => {
            &&& maps matches RegionMaps::Held(g)
            &&& w matches WindowReply::Body(b)
            &&& b@ == resource_body(g@, region, tile)
        },
    }
}

/// What a request for a window of terrain answers.
pub open spec fn is_elevation_reply(maps: RegionMaps, region: u32, tile: (i32, i32), w: WindowReply) -> bool {
    match unavailable(maps, region) {
        Some(reply) => w == reply,
        None => {
            &&& maps matches RegionMaps::Held(g)
            &&& w matches WindowReply::Body(b)
            &&& is_elevation_window(g@, region, tile, b@)
        },
    }
}

/// What a request for a window around a tile of the world is answered.
#[derive(Debug)]
pub enum WorldWindow {
    Refused(AnchorError),
    Window(WindowReply),
}

/// The window of resources around a tile of the world.
pub fn bitme_world_resources(roads: Option<&[RoadsRegionHandle]>, x: &str, z: &str) -> (r: WorldWindow)
    requires
        roads_wf(roads),
    ensures
        match anchor(x@, z@) {
            Err(e) => r == WorldWindow::Refused(e),
            Ok((x, z, region)) => r matches WorldWindow::Window(w) && exists|maps: RegionMaps|
                #[trigger] is_lookup(roads, region, maps) && is_window_reply(maps, region, (x, z), w),
        },
{
    let (x, z, region) = match resolve_world_anchor(x, z) {
        Ok(a) => a,
        Err(e) => {
            return WorldWindow::Refused(e);
        },
    };
    let maps = roads_region(roads, region);
    let ghost looked = maps;
    proof {
        law_world_windows_fit(x, z);
    }
    let w = resource_window_response(maps, region, (x, z));
    assert(is_lookup(roads, region, looked) && is_window_reply(looked, region, (x, z), w));
    WorldWindow::Window(w)
}

/// The terrain under the window around a tile of the world.
pub fn bitme_world_elevation(roads: Option<&[RoadsRegionHandle]>, x: &str, z: &str) -> (r: WorldWindow)
    requires
        roads_wf(roads),
    ensures
        match anchor(x@, z@) {
            Err(e) => r == WorldWindow::Refused(e),
            Ok((x, z, region)) => r matches WorldWindow::Window(w) && exists|maps: RegionMaps|
                #[trigger] is_lookup(roads, region, maps) && is_elevation_reply(maps, region, (x, z), w),
        },
{
    let (x, z, region) = match resolve_world_anchor(x, z) {
        Ok(a) => a,
        Err(e) => {
            return WorldWindow::Refused(e);
        },
    };
    let maps = roads_region(roads, region);
    let ghost looked = maps;
    proof {
        law_world_windows_fit(x, z);
    }
    let w = elevation_window_response(maps, region, (x, z));
    assert(is_lookup(roads, region, looked) && is_elevation_reply(looked, region, (x, z), w));
    WorldWindow::Window(w)
}

/// Two windows of resources around the same tile hold the same bytes: the
/// window around a player is the window around the tile that they stand on.
pub proof fn law_windows_agree(
    roads: Option<&[RoadsRegionHandle]>,
    region: u32,
    tile: (i32, i32),
    one: (RegionMaps, WindowReply),
    other: (RegionMaps, WindowReply),
)
    requires
        is_lookup(roads, region, one.0) && is_window_reply(one.0, region, tile, one.1),
        is_lookup(roads, region, other.0) && is_window_reply(other.0, region, tile, other.1),
    ensures
        match (one.1, other.1) {
            (WindowReply::Body(a), WindowReply::Body(b)) => a@ == b@,
            (a, b) => a == b,
        },
{
}

/// The windows around a player are in range.
proof fn lemma_footing_fits(region: u16, tile: (i32, i32))
    requires
        -3_000_000 <= tile.0 <= 3_000_000,
        -3_000_000 <= tile.1 <= 3_000_000,
    ensures
        window_fits(region, tile),
        elevation_fits(region, tile),
{
}

/// Whether a stream of the changes around a player can start.
pub open spec fn stream_start(
    connections: u64,
    roads: Option<&[RoadsRegionHandle]>,
    shards: Seq<&RegionStore>,
    player: u64,
) -> Result<(u32, (i32, i32)), SessionError> {
    if connections >= RESOURCE_WS_MAX_CONNECTIONS {
        Err(SessionError::TooManyStreams)
    } else {
        match footing(shards, player) {
            Err(e) => Err(e),
            Ok((region, tile)) => if roads is None {
                Err(SessionError::NotEnabled)
            } else if found_maps(roads, region) is None {
                Err(SessionError::NoMap { region })
            } else {
                Ok((region, tile))
            },
        }
    }
}

/// Starts a stream of the changes around a player: the region and the tile in
/// the middle. A stream that starts takes a connection; one that does not
/// leaves none taken.
pub fn bitme_session_resources_ws(
    hub: &mut BitmeHub,
    interest: &mut InterestHub,
    roads: Option<&[RoadsRegionHandle]>,
    shards: &[&RegionStore],
    entity_id: &str,
    now: u64,
) -> (r: Result<(u32, (i32, i32)), SessionError>)
    requires
        old(hub).wf(),
        old(interest).wf(),
        roads_wf(roads),
        all_wf(shards@),
    ensures
        final(hub).wf(),
        final(interest).wf(),
        match id_in(entity_id@) {
            None => {
                &&& r == Err::<(u32, (i32, i32)), SessionError>(SessionError::BadId)
                &&& final(hub)@ == old(hub)@
            },
            Some(player) => {
                &&& touched(old(hub)@, player, now, final(hub)@)
                &&& r == stream_start(old(interest)@.connections, roads, shards@, player)
            },
        },
        final(interest)@ == if r is Ok {
            InterestModel { connections: (old(interest)@.connections + 1) as u64, ..old(interest)@ }
        } else {
            old(interest)@
        },
{
    let player: u64 = match parse_u64(chars_of(entity_id).as_slice()) {
        Some(v) => v,
        None => {
            return Err(SessionError::BadId);
        },
    };
    hub.touch_session(player, now);
    if !interest.try_acquire_connection(RESOURCE_WS_MAX_CONNECTIONS) {
        return Err(SessionError::TooManyStreams);
    }
    let refused: SessionError = match player_footing(shards, player) {
        Ok((region, tile)) => match roads_region(roads, region) {
            RegionMaps::Held(_) => {
                return Ok((region, tile));
            },
            RegionMaps::Off => SessionError::NotEnabled,
            RegionMaps::Missing => SessionError::NoMap { region },
        },
        Err(e) => e,
    };
    interest.release_connection();
    assert(interest@ =~= old(interest)@);
    Err(refused)
}

/// An entry of the dictionary of a region.
#[derive(Debug)]
pub enum DictEntry<'a> {
    Resource { index: u32, resource_id: i32, desc: Option<&'a ResourceDescRow>, harvestable: bool },
    Paving { index: u32, paving_type_id: i32, name: Option<&'a String> },
}

/// The dictionary of a region.
#[derive(Debug)]
pub struct Dictionary<'a> {
    pub region: u32,
    pub dict_version: u32,
    pub entries: Vec<DictEntry<'a>>,
}

/// Why there is no dictionary of a region.
#[derive(Debug, Clone, Copy, PartialEq, Eq, Structural)]
pub enum DictError {
    /// The number of the region is no 32-bit number.
    BadRegion,
    NotEnabled,
    UnknownRegion { region: u32 },
    /// The maps are still being filled.
    Loading,
}

/// Position of the last paving with an id among the first `n`.
pub open spec fn last_paving(s: Seq<PavingDescRow>, id: i32, n: nat) -> Option<int>
    decreases n,
{
    if n == 0 {
        None
    } else if s[n - 1].id == id {
        Some(n - 1)
    } else {
        last_paving(s, id, (n - 1) as nat)
    }
}

/// The name of a paving, where the catalogue has it.
pub open spec fn paving_name(c: CatalogModel, id: i32) -> Option<String> {
    match last_paving(c.paving, id, c.paving.len()) {
        Some(i) => Some(c.paving[i].name),
        None => None,
    }
}

/// The description of a resource type in the rows of a region, where the
/// region has them and they are all there.
pub open spec fn shard_desc(shards: Seq<&RegionStore>, region: u32, id: i32) -> Option<ResourceDescRow> {
    match shard_from(shards, region, 0) {
        Some(i) => if shards[i].ready {
            shards[i].desc(id)
        } else {
            None
        },
        None => None,
    }
}

/// Whether an entry of the dictionary tells of a resource type.
pub open spec fn is_resource_entry(
    shards: Seq<&RegionStore>,
    list: HarvestableIds,
    region: u32,
    ids: Seq<i32>,
    k: int,
    e: DictEntry,
) -> bool {
    &&& e matches DictEntry::Resource { index, resource_id, desc, harvestable }
    &&& index == k
    &&& resource_id == ids[k]
    &&& held(desc) == shard_desc(shards, region, resource_id)
    &&& harvestable == list.lists(resource_id)
}

/// Whether an entry of the dictionary tells of a paving.
pub open spec fn is_paving_entry(c: CatalogModel, ids: Seq<i32>, k: int, e: DictEntry) -> bool {
    &&& e matches DictEntry::Paving { index, paving_type_id, name }
    &&& index == k
    &&& paving_type_id == ids[k]
    &&& held(name) == paving_name(c, paving_type_id)
}

/// Whether entries are the dictionary of a region: its resource types, then
/// its pavings, each from index 1 on.
pub open spec fn is_dictionary(
    m: GridModel,
    shards: Seq<&RegionStore>,
    list: HarvestableIds,
    c: CatalogModel,
    region: u32,
    entries: Seq<DictEntry>,
) -> bool {
    let n = m.resources.ids.len();
    let p = m.resources.paving_ids.len();
    &&& entries.len() == (n - 1) + (p - 1)
    &&& forall|k: int|
        1 <= k < n ==> is_resource_entry(shards, list, region, m.resources.ids, k, #[trigger] entries[k - 1])
    &&& forall|k: int|
        1 <= k < p ==> is_paving_entry(c, m.resources.paving_ids, k, #[trigger] entries[(n - 1) + (k - 1)])
}

/// The name of a paving, where the catalogue has it.
fn name_of_paving<'a>(catalog: &'a GlobalRoadsCatalog, id: i32) -> (r: Option<&'a String>)
    ensures
        held(r) == paving_name(catalog@, id),
{
    let mut n: usize = catalog.paving.len();
    while n > 0
        invariant
            n <= catalog.paving@.len(),
            last_paving(catalog.paving@, id, catalog.paving@.len()) == last_paving(catalog.paving@, id, n as nat),
        decreases n,
    {
        if catalog.paving[n - 1].id == id {
            return Some(&catalog.paving[n - 1].name);
        }
        n -= 1;
    }
    None
}

/// Tells what the indices in the windows of a region stand for.
pub fn bitme_region_resource_dictionary<'a>(
    roads: Option<&[RoadsRegionHandle]>,
    shards: &[&'a RegionStore],
    list: &HarvestableIds,
    catalog: &'a GlobalRoadsCatalog,
    region: &str,
) -> (r: Result<Dictionary<'a>, DictError>)
    requires
        roads_wf(roads),
        all_wf(shards@),
        list.wf(),
    ensures
        match capped(unsigned_number(region@), u32::MAX as int) {
            None => r == Err::<Dictionary<'a>, DictError>(DictError::BadRegion),
            Some(v) => if roads is None {
                r == Err::<Dictionary<'a>, DictError>(DictError::NotEnabled)
            } else {
                match found_maps(roads, v as u32) {
                    None => r == Err::<Dictionary<'a>, DictError>(DictError::UnknownRegion { region: v as u32 }),
                    Some(m) => if !m.ready {
                        r == Err::<Dictionary<'a>, DictError>(DictError::Loading)
                    } else {
                        &&& r matches Ok(d)
                        &&& d.region == v
                        &&& d.dict_version == m.resources.version()
                        &&& is_dictionary(m, shards@, *list, catalog@, v as u32, d.entries@)
                    },
                }
            },
        },
{
    let region: u32 = match parse_u32(chars_of(region).as_slice()) {
        Some(v) => v,
        None => {
            return Err(DictError::BadRegion);
        },
    };
    let grid = match roads_region(roads, region) {
        RegionMaps::Off => {
            return Err(DictError::NotEnabled);
        },
        RegionMaps::Missing => {
            return Err(DictError::UnknownRegion { region });
        },
        RegionMaps::Held(g) => g,
    };
    if !grid.ready {
        return Err(DictError::Loading);
    }
    let entries = dictionary_entries(grid, shards, list, catalog, region);
    Ok(Dictionary { region, dict_version: grid.resource_map.dict_version(), entries })
}

/// Lists what the indices in the windows of a region stand for.
fn dictionary_entries<'a>(
    grid: &RoadsRegionGrid,
    shards: &[&'a RegionStore],
    list: &HarvestableIds,
    catalog: &'a GlobalRoadsCatalog,
    region: u32,
) -> (r: Vec<DictEntry<'a>>)
    requires
        grid.wf(),
        all_wf(shards@),
        list.wf(),
    ensures
        is_dictionary(grid@, shards@, *list, catalog@, region, r@),
{
    let rows = find_shard(shards, region);
    let ids = grid.resource_map.dict_ids();
    let paving_ids = grid.resource_map.dict_paving_ids();
    proof {
        grid.resource_map.lemma_valid();
    }
    let mut entries: Vec<DictEntry<'a>> = Vec::new();
    let mut k: usize = 1;
    while k < ids.len()
        invariant
            all_wf(shards@),
            list.wf(),
            match rows {
                Some(s) => shard_from(shards@, region, 0) matches Some(i) && 0 <= i < shards@.len() && s == shards@[i],
                None => shard_from(shards@, region, 0) is None,
            },
            1 <= k <= ids@.len() <= 1024,
            entries@.len() == k - 1,
            forall|j: int|
                1 <= j < k ==> is_resource_entry(shards@, *list, region, ids@, j, #[trigger] entries@[j - 1]),
        decreases ids.len() - k,
    {
        let id: i32 = ids[k];
        let desc = match rows {
            Some(s) => if s.ready {
                s.desc_of(id)
            } else {
                None
            },
            None => None,
        };
        let e = DictEntry::Resource {
            index: k as u32,
            resource_id: id,
            desc,
            harvestable: is_harvestable_resource_id(list, id),
        };
        assert(is_resource_entry(shards@, *list, region, ids@, k as int, e));
        entries.push(e);
        k += 1;
    }
    let ghost first = entries@;
    let mut p: usize = 1;
    while p < paving_ids.len()
        invariant
            1 <= p <= paving_ids@.len() <= 1024,
            first.len() == ids@.len() - 1,
            entries@.len() == first.len() + (p - 1),
            forall|j: int| 0 <= j < first.len() ==> #[trigger] entries@[j] == first[j],
            forall|j: int|
                1 <= j < p ==> is_paving_entry(catalog@, paving_ids@, j, #[trigger] entries@[first.len() + (j - 1)]),
        decreases paving_ids.len() - p,
    {
        let id: i32 = paving_ids[p];
        let e = DictEntry::Paving { index: p as u32, paving_type_id: id, name: name_of_paving(catalog, id) };
        assert(is_paving_entry(catalog@, paving_ids@, p as int, e));
        entries.push(e);
        p += 1;
    }
    entries
}

/// Whether a dictionary explains the index that a content shows.
pub open spec fn explains(m: GridModel, entries: Seq<DictEntry>, c: u16) -> bool {
    if word_is_paving(c) {
        exists|i: int|
            0 <= i < entries.len() && (#[trigger] entries[i] matches DictEntry::Paving { index, paving_type_id, .. } && index
                == word_index(c) && paving_type_id == m.resources.paving_ids[word_index(c) as int])
    } else {
        exists|i: int|
            0 <= i < entries.len() && (#[trigger] entries[i] matches DictEntry::Resource { index, resource_id, .. } && index
                == word_index(c) && resource_id == m.resources.ids[word_index(c) as int])
    }
}

/// The dictionary of a region explains every tile of its map that has
/// content.
pub proof fn law_dictionary_explains_windows(
    m: GridModel,
    shards: Seq<&RegionStore>,
    list: HarvestableIds,
    c: CatalogModel,
    region: u32,
    entries: Seq<DictEntry>,
    lx: int,
    lz: int,
)
    requires
        m.resources.valid(),
        is_dictionary(m, shards, list, c, region, entries),
        in_region(lx, lz),
        content(m.resources.word(lx, lz)) != 0,
    ensures
        explains(m, entries, content(m.resources.word(lx, lz))),
{
    assert(REGION_SIDE == 7680);
    assert(0 <= lz * 7680 + lx < OVERLAY_CELLS);
    let w = content(m.resources.tiles[lz * REGION_SIDE + lx]);
    let k = word_index(w) as int;
    assert(known_content(w, m.resources.ids, m.resources.paving_ids));
    if word_is_paving(w) {
        assert(exists|i: u16| 1 <= i < m.resources.paving_ids.len() && w == #[trigger] paving_word(i));
        assert(1 <= k < m.resources.paving_ids.len());
        let at = (m.resources.ids.len() - 1) + (k - 1);
        assert(is_paving_entry(c, m.resources.paving_ids, k, entries[at]));
    } else {
        assert(1 <= k < m.resources.ids.len());
        assert(is_resource_entry(shards, list, region, m.resources.ids, k, entries[k - 1]));
    }
}

/// What a name is answered goes by the identity of the player first. The region
/// that is known through it counts before one with rows of the player, and so
/// does the sign-in state that the world knows. The name as written is the one
/// that a region has.
pub proof fn law_answers_go_by_the_identity_first(
    m: GlobalModel,
    shards: Seq<&RegionStore>,
    p: ResolvedPlayer,
    r: PlayerReply,
    k: int,
)
    requires
        is_player_reply(m, shards, p, r),
        0 <= k < shards.len(),
        forall|j: int| 0 <= j < k ==> !tells_home(*#[trigger] shards[j], p.entity_id),
    ensures
        r.entity_id == p.entity_id && r.username_lowercase@ == p.username_lowercase@ && r.identity == p.identity_hex,
        p.region_id is Some ==> r.region_id == p.region_id,
        p.signed_in is Some ==> r.signed_in == p.signed_in,
        p.region_id is Some ==> {
            &&& p.host@.len() > 0 ==> (r.host matches Some(t) && t@ == p.host@)
            &&& p.host@.len() == 0 ==> r.host is None
            &&& p.module@.len() > 0 ==> (r.module matches Some(t) && t@ == p.module@)
            &&& p.module@.len() == 0 ==> r.module is None
            &&& p.region_name matches Some(a) ==> (r.region_name matches Some(b) && a@ == b@)
        },
        tells_home(*shards[k], p.entity_id) ==> {
            let s = shards[k];
            &&& p.region_id is None ==> r.region_id == Some(s.region)
            &&& s.player_username@.dom().contains(p.entity_id) ==> r.username@ == s.player_username@[p.entity_id]@
            &&& !s.player_username@.dom().contains(p.entity_id) ==> r.username@ == p.username_lowercase@
            &&& p.signed_in is None && s.player_state@.dom().contains(p.entity_id) ==> r.signed_in == Some(
                s.player_state@[p.entity_id],
            )
        },
        !tells_home(*shards[k], p.entity_id) && k == shards.len() - 1 ==> r.region_id == p.region_id && r.signed_in
            == p.signed_in && r.username@ == p.username_lowercase@,
{
    lemma_home(shards, p.entity_id, 0, k);
}

/// The first region that tells of a player at home.
proof fn lemma_home(shards: Seq<&RegionStore>, player: u64, i: int, k: int)
    requires
        0 <= i <= k < shards.len(),
        forall|j: int| i <= j < k ==> !tells_home(*#[trigger] shards[j], player),
    ensures
        tells_home(*shards[k], player) ==> home_from(shards, player, i) == Some(k),
        !tells_home(*shards[k], player) && k == shards.len() - 1 ==> home_from(shards, player, i) is None,
    decreases k - i,
{
    if i < k {
        assert(!tells_home(*shards[i], player));
        lemma_home(shards, player, i + 1, k);
    } else {
        assert(home_from(shards, player, k + 1) is None || k + 1 < shards.len());
    }
}

/// The number of a player is the one that its digits spell.
pub proof fn law_players_are_named_by_number(n: nat)
    requires
        n <= u64::MAX,
    ensures
        id_in(decimal(n)) == Some(n as u64),
{
    law_decimal_round_trip(n);
}

/// A stream starts around a player of a region with maps, on their tile, as long
/// as fewer than 2048 run; else it is told which of these is missing.
pub proof fn law_streams_start_around_the_player(
    connections: u64,
    roads: Option<&[RoadsRegionHandle]>,
    shards: Seq<&RegionStore>,
    player: u64,
)
    ensures
        ({
            let r = stream_start(connections, roads, shards, player);
            let at = footing(shards, player);
            &&& connections >= 2048 <==> r == Err::<(u32, (i32, i32)), SessionError>(SessionError::TooManyStreams)
            &&& connections < 2048 && at is Err ==> r == at
            &&& r is Ok ==> r == at && (roads matches Some(grids) && exists|i: int|
                0 <= i < grids@.len() && (#[trigger] grids@[i]).region == at->Ok_0.0)
            &&& connections < 2048 && at is Ok && roads is None ==> r is Err && r->Err_0 is NotEnabled
        }),
{
    if let (Some(grids), Ok(at)) = (roads, footing(shards, player)) {
        lemma_grid_is_there(grids@, at.0, 0);
    }
}

proof fn lemma_grid_is_there(grids: Seq<RoadsRegionHandle>, region: u32, i: int)
    requires
        0 <= i,
    ensures
        grid_from(grids, region, i) matches Some(k) ==> i <= k < grids.len() && grids[k].region == region,
    decreases grids.len() - i,
{
    if i < grids.len() && grids[i].region != region {
        lemma_grid_is_there(grids, region, i + 1);
    }
}

/// A player stands on the tile that the region tells which is answered for them.
pub proof fn law_players_stand_where_their_region_says(shards: Seq<&RegionStore>, player: u64)
    ensures
        footing(shards, player) matches Ok(f) ==> exists|i: int|
            0 <= i < shards.len() && (#[trigger] shards[i]).region == f.0 && shards[i].tile(player) == Some(f.1)
                && region_with(shards, player) == Some(f.0),
        footing(shards, player) is Err <==> region_with(shards, player) is None || footing(shards, player)
            == Err::<(u32, (i32, i32)), SessionError>(SessionError::NotOnOverworld { player }),
{
    if let Some(region) = region_with(shards, player) {
        law_player_region_is_held(shards, player);
        lemma_shard_is_there(shards, region, 0);
        let i = shard_from(shards, region, 0)->Some_0;
        assert(shards[i].region == region);
    }
}

proof fn lemma_shard_is_there(shards: Seq<&RegionStore>, region: u32, i: int)
    requires
        0 <= i,
    ensures
        shard_from(shards, region, i) matches Some(k) ==> i <= k < shards.len() && shards[k].region == region,
    decreases shards.len() - i,
{
    if i < shards.len() && shards[i].region != region {
        lemma_shard_is_there(shards, region, i + 1);
    }
}

/// A name that is known leads to its player, and one that is not leads to nobody.
pub proof fn law_names_lead_to_their_players(m: GlobalModel, shards: Seq<&RegionStore>, name: Seq<char>, r: ResolveReply)
    requires
        answers(m, shards, name, r),
    ensures
        r is Found <==> m.entity_of.dom().contains(name),
        r matches ResolveReply::Found(p) ==> p.entity_id == m.entity_of[name],
        r matches ResolveReply::Unknown { name_lowercase } ==> name_lowercase@ == name,
{
}

/// The entry of a resource type tells whether it is harvestable, and what the
/// region says of it once all its rows are there; that of a paving has the name
/// in the catalogue.
pub proof fn law_dictionary_entries_tell_what_is_known(
    m: GridModel,
    shards: Seq<&RegionStore>,
    list: HarvestableIds,
    c: CatalogModel,
    region: u32,
    entries: Seq<DictEntry>,
    i: int,
    k: int,
)
    requires
        is_dictionary(m, shards, list, c, region, entries),
        m.resources.valid(),
        0 <= i < entries.len(),
        0 <= k < shards.len(),
        shards[k].region == region,
        forall|j: int| 0 <= j < k ==> (#[trigger] shards[j]).region != region,
    ensures
        match entries[i] {
            DictEntry::Resource { index, resource_id, desc, harvestable } => {
                &&& index == i + 1
                &&& resource_id == m.resources.ids[i + 1]
                &&& harvestable == list.lists(resource_id)
                &&& shards[k].ready && shards[k].resource_desc@.dom().contains(key32(resource_id as int)) ==> (
                desc matches Some(d) && *d == shards[k].resource_desc@[key32(resource_id as int)])
                &&& !shards[k].ready ==> desc is None
            },
            DictEntry::Paving { index, paving_type_id, name } => {
                &&& paving_type_id == m.resources.paving_ids[index as int]
                &&& name is Some <==> exists|j: int|
                    0 <= j < c.paving.len() && (#[trigger] c.paving[j]).id == paving_type_id
                &&& forall|j: int|
                    0 <= j < c.paving.len() && (#[trigger] c.paving[j]).id == paving_type_id && (forall|l: int|
                        0 <= l < c.paving.len() && l != j ==> (#[trigger] c.paving[l]).id != paving_type_id) ==> (
                    name matches Some(t) && *t == c.paving[j].name)
            },
        },
{
    let n = m.resources.ids.len();
    lemma_first_shard(shards, region, 0, k);
    if i < n - 1 {
        assert(is_resource_entry(shards, list, region, m.resources.ids, i + 1, entries[i + 1 - 1]));
    } else {
        let p = i - (n - 1) + 1;
        assert(is_paving_entry(c, m.resources.paving_ids, p, entries[(n - 1) + (p - 1)]));
        lemma_last_paving(c.paving, m.resources.paving_ids[p], c.paving.len());
    }
}

proof fn lemma_first_shard(shards: Seq<&RegionStore>, region: u32, i: int, k: int)
    requires
        0 <= i <= k < shards.len(),
        shards[k].region == region,
        forall|j: int| 0 <= j < k ==> (#[trigger] shards[j]).region != region,
    ensures
        shard_from(shards, region, i) == Some(k),
    decreases k - i,
{
    if i < k {
        assert(shards[i].region != region);
        lemma_first_shard(shards, region, i + 1, k);
    }
}

proof fn lemma_last_paving(s: Seq<PavingDescRow>, id: i32, n: nat)
    requires
        n <= s.len(),
    ensures
        match last_paving(s, id, n) {
            Some(i) => 0 <= i < n && s[i].id == id,
            None => forall|j: int| 0 <= j < n ==> (#[trigger] s[j]).id != id,
        },
    decreases n,
{
    if n > 0 && s[n - 1].id != id {
        lemma_last_paving(s, id, (n - 1) as nat);
    }
}

} // verus!
