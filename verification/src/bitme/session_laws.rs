//! Laws of what a phone is told: where a player is, and what their session
//! shows.

use vstd::prelude::*;

use crate::bitme::hub::{is_recent, log_of, HubState, SpawnEntry};
use crate::bitme::region_store::{
    law_where_a_player_is_counts_before_home, region_with, shard_from, tells_home, tells_place, RegionStore,
};
use crate::bitme::serve::{footing, found_maps, grid_from, SessionError};
use crate::bitme::session::{
    actions_of, all_held, are_spawns, base_aim, buffs_of, claim_row, claim_under, extract_aim, extracts, in_scope,
    is_base, is_snapshot, is_spawn, live_buffs, recent_spawns, spawn_from, targets_of, SessionSnapshot,
};
use crate::cell::BuffEntry;
use crate::decode::rows::PlayerActionRow;
use crate::id_table::key32;
use crate::roads::grid::claim_of;
use crate::roads::join::known;
use crate::roads::map_laws::is_cell_of;
use crate::roads::store::{GridModel, RoadsRegionHandle};

verus! {

/// Whether no two regions have the same number.
pub open spec fn distinct_regions(shards: Seq<&RegionStore>) -> bool {
    forall|i: int, j: int|
        0 <= i < j < shards.len() ==> (#[trigger] shards[i]).region != (#[trigger] shards[j]).region
}

/// A region is found by its number.
proof fn lemma_shard(shards: Seq<&RegionStore>, k: int, i: int)
    requires
        distinct_regions(shards),
        0 <= i <= k < shards.len(),
    ensures
        shard_from(shards, shards[k].region, i) == Some(k),
    decreases k - i,
{
    if i < k {
        assert(shards[i].region != shards[k].region);
        lemma_shard(shards, k, i + 1);
    }
}

/// Where one region that is ready tells where a player is, that region answers
/// for them: its rows make the session, and the window is the one around the
/// tile that it has them on, if that is in the overworld. Where no region does,
/// a region where they are at home answers, without a window. Where there is
/// neither, the player is not known.
pub proof fn law_the_region_where_a_player_is_answers(shards: Seq<&RegionStore>, player: u64, k: int)
    requires
        distinct_regions(shards),
        0 <= k < shards.len(),
    ensures
        tells_place(*shards[k], player) && (forall|j: int|
            0 <= j < shards.len() && j != k ==> !tells_place(*#[trigger] shards[j], player)) ==> {
            &&& region_with(shards, player) == Some(shards[k].region)
            &&& shard_from(shards, shards[k].region, 0) == Some(k)
            &&& shards[k].mobile_entity@[player].dimension == 1 ==> (footing(shards, player) matches Ok(f) && f.0
                == shards[k].region && Some(f.1) == shards[k].tile(player))
            &&& shards[k].mobile_entity@[player].dimension != 1 ==> footing(shards, player) == Err::<
                (u32, (i32, i32)),
                SessionError,
            >(SessionError::NotOnOverworld { player })
        },
        (forall|j: int| 0 <= j < shards.len() ==> !tells_place(*#[trigger] shards[j], player)) && tells_home(
            *shards[k],
            player,
        ) && (forall|j: int| 0 <= j < shards.len() && j != k ==> !tells_home(*#[trigger] shards[j], player)) ==> {
            &&& region_with(shards, player) == Some(shards[k].region)
            &&& shard_from(shards, shards[k].region, 0) == Some(k)
        },
        (forall|j: int|
            0 <= j < shards.len() ==> !tells_place(*#[trigger] shards[j], player) && !tells_home(*shards[j], player))
            ==> footing(shards, player) == Err::<(u32, (i32, i32)), SessionError>(SessionError::NoPlayer { player }),
{
    law_where_a_player_is_counts_before_home(shards, player);
    lemma_shard(shards, k, 0);
    assert(tells_place(*shards[k], player) || !tells_place(*shards[k], player));
}

/// Maps are found by the number of their region.
pub proof fn law_maps_are_found_by_region(roads: Option<&[RoadsRegionHandle]>, region: u32, k: int)
    requires
        roads matches Some(grids) && 0 <= k < grids@.len() && grids@[k].region == region && forall|j: int|
            0 <= j < k ==> (#[trigger] grids@[j]).region != region,
    ensures
        found_maps(roads, region) == Some(roads->Some_0@[k].grid@),
{
    lemma_grid(roads->Some_0@, region, k, 0);
}

/// The first maps of a region.
proof fn lemma_grid(grids: Seq<RoadsRegionHandle>, region: u32, k: int, i: int)
    requires
        0 <= i <= k < grids.len(),
        grids[k].region == region,
        forall|j: int| i <= j < k ==> (#[trigger] grids[j]).region != region,
    ensures
        grid_from(grids, region, i) == Some(k),
    decreases k - i,
{
    if i < k {
        lemma_grid(grids, region, k, i + 1);
    }
}

/// No maps are found of a region that has none.
pub proof fn law_no_maps_of_other_regions(grids: Seq<RoadsRegionHandle>, region: u32, i: int)
    requires
        0 <= i <= grids.len(),
        forall|j: int| i <= j < grids.len() ==> (#[trigger] grids[j]).region != region,
    ensures
        grid_from(grids, region, i) is None,
    decreases grids.len() - i,
{
    if i < grids.len() {
        law_no_maps_of_other_regions(grids, region, i + 1);
    }
}

/// A session tells the player, the region and the time that were asked for. It
/// has a name, a sign-in state, a position and stamina just where the region
/// has such rows of the player, and they are what the rows say.
pub proof fn law_a_session_tells_the_rows_of_the_player(
    h: HubState,
    maps: Option<GridModel>,
    s: RegionStore,
    player: u64,
    now: i64,
    r: SessionSnapshot,
)
    requires
        is_snapshot(h, maps, s, player, now, r),
    ensures
        r.player_entity_id == player && r.region == s.region && r.server_time_ms == now,
        r.username is Some <==> s.player_username@.dom().contains(player),
        r.username matches Some(name) ==> *name == s.player_username@[player],
        r.signed_in is Some <==> s.player_state@.dom().contains(player),
        r.signed_in matches Some(b) ==> b == s.player_state@[player],
        r.position is Some <==> s.mobile_entity@.dom().contains(player),
        r.position matches Some(p) ==> {
            let row = s.mobile_entity@[player];
            &&& *p.row == row
            &&& p.tile_x * 1000 <= row.location_x < (p.tile_x + 1) * 1000
            &&& p.tile_z * 1000 <= row.location_z < (p.tile_z + 1) * 1000
            &&& p.age_ms >= 0
            &&& 0 <= now && row.timestamp_ms <= now ==> p.age_ms == now - row.timestamp_ms
            &&& 0 <= now < row.timestamp_ms <= i64::MAX ==> p.age_ms == 0
        },
        r.stamina is Some <==> s.stamina@.dom().contains(player),
        r.stamina matches Some(i) ==> *i.row == s.stamina@[player] && i.max == s.stat(player, "Maximum Stamina"@)
            && i.max_health == s.stat(player, "Maximum Health"@),
{
}

/// The actions of a session are those of the player, in order, each with the
/// time at which it ends. Its buffs are those that are more than placeholders.
pub proof fn law_a_session_tells_actions_and_buffs(
    h: HubState,
    maps: Option<GridModel>,
    s: RegionStore,
    player: u64,
    now: i64,
    r: SessionSnapshot,
    i: int,
    b: BuffEntry,
)
    requires
        is_snapshot(h, maps, s, player, now, r),
    ensures
        s.player_action@.dom().contains(player) ==> r.actions@.len() == s.player_action@[player]@.len(),
        !s.player_action@.dom().contains(player) ==> r.actions@.len() == 0,
        0 <= i < r.actions@.len() ==> {
            let row = s.player_action@[player]@[i];
            &&& *r.actions@[i].row == row
            &&& row.start_time_ms + row.duration_ms <= u64::MAX ==> r.actions@[i].ends_at_ms == row.start_time_ms
                + row.duration_ms
        },
        (exists|k: int| 0 <= k < r.buffs@.len() && *#[trigger] r.buffs@[k] == b) <==> s.active_buff@.dom().contains(player)
            && s.active_buff@[player]@.contains(b) && (b.start_timestamp != 0 || b.duration != 0),
{
    let all = buffs_of(s, player);
    let told = all_held(r.buffs@);
    let f = live_buffs();
    assert(told == all.filter(f));
    if all.contains(b) && f(b) {
        let j = choose|j: int| 0 <= j < all.len() && all[j] == b;
        all.lemma_filter_contains(f, j);
        let k = choose|k: int| 0 <= k < told.len() && told[k] == b;
        assert(*r.buffs@[k] == b);
    }
    if exists|k: int| 0 <= k < r.buffs@.len() && *#[trigger] r.buffs@[k] == b {
        let k = choose|k: int| 0 <= k < r.buffs@.len() && *#[trigger] r.buffs@[k] == b;
        assert(told[k] == b);
        all.lemma_filter_pred(f, k);
        all.lemma_filter_contains_rev(f, b);
    }
}

/// The first action that extracts.
proof fn lemma_extract(actions: Seq<PlayerActionRow>, n: nat, i: int)
    requires
        n <= actions.len(),
        0 <= i < actions.len(),
        extracts(actions[i]),
        forall|j: int| 0 <= j < i ==> !extracts(#[trigger] actions[j]),
    ensures
        n > i ==> extract_aim(actions, n) == Some((actions[i].target->Some_0, actions[i].recipe_id)),
        n <= i ==> extract_aim(actions, n) is None,
    decreases n,
{
    if n > 0 {
        lemma_extract(actions, (n - 1) as nat, i);
    }
}

/// No action extracts.
proof fn lemma_no_extract(actions: Seq<PlayerActionRow>, n: nat)
    requires
        n <= actions.len(),
        forall|j: int| 0 <= j < actions.len() ==> !extracts(#[trigger] actions[j]),
    ensures
        extract_aim(actions, n) is None,
    decreases n,
{
    if n > 0 {
        lemma_no_extract(actions, (n - 1) as nat);
    }
}

/// The first action of the whole body.
proof fn lemma_base(actions: Seq<PlayerActionRow>, n: nat, i: int)
    requires
        n <= actions.len(),
        0 <= i <= actions.len(),
        i < actions.len() ==> is_base(actions[i]),
        forall|j: int| 0 <= j < i ==> !is_base(#[trigger] actions[j]),
    ensures
        n > i ==> base_aim(actions, n) == Some((actions[i].target->Some_0, actions[i].recipe_id)),
        n <= i ==> base_aim(actions, n) is None,
    decreases n,
{
    if n > 0 {
        lemma_base(actions, (n - 1) as nat, i);
    }
}

/// What a player extracts is their target, whatever else they do: that of the
/// first such action with a target. Where they extract nothing, it is that of
/// the first action of the whole body with a target.
pub proof fn law_extracting_counts_first(
    h: HubState,
    maps: Option<GridModel>,
    s: RegionStore,
    player: u64,
    now: i64,
    r: SessionSnapshot,
    i: int,
)
    requires
        is_snapshot(h, maps, s, player, now, r),
        s.player_action@.dom().contains(player),
        0 <= i < s.player_action@[player]@.len(),
    ensures
        ({
            let actions = s.player_action@[player]@;
            let a = actions[i];
            &&& a.target is Some && a.action_type@ == "Extract"@ && (forall|j: int|
                0 <= j < i ==> !((#[trigger] actions[j]).target is Some && actions[j].action_type@ == "Extract"@)) ==> (
            r.target matches Some(t) && t.entity_id == a.target->Some_0)
            &&& a.target is Some && a.layer@ == "Base"@ && (forall|j: int|
                0 <= j < actions.len() ==> !((#[trigger] actions[j]).target is Some && actions[j].action_type@
                    == "Extract"@)) && (forall|j: int|
                0 <= j < i ==> !((#[trigger] actions[j]).target is Some && actions[j].layer@ == "Base"@)) ==> (
            r.target matches Some(t) && t.entity_id == a.target->Some_0)
            &&& (forall|j: int| 0 <= j < actions.len() ==> (#[trigger] actions[j]).target is None) ==> r.target is None
        }),
{
    let actions = s.player_action@[player]@;
    assert(actions == actions_of(s, player));
    let a = actions[i];
    if extracts(a) && (forall|j: int| 0 <= j < i ==> !extracts(#[trigger] actions[j])) {
        lemma_extract(actions, actions.len(), i);
    } else if forall|j: int| 0 <= j < actions.len() ==> !extracts(#[trigger] actions[j]) {
        lemma_no_extract(actions, actions.len());
        if is_base(a) && (forall|j: int| 0 <= j < i ==> !is_base(#[trigger] actions[j])) {
            lemma_base(actions, actions.len(), i);
        }
        if forall|j: int| 0 <= j < actions.len() ==> (#[trigger] actions[j]).target is None {
            lemma_base(actions, actions.len(), actions.len() as int);
        }
    }
}

/// What is told of a target: its health as the hub heard it, the place that the
/// map has, when it changes next. Its type is what the map shows; else what
/// came up; else what its row says; else what the recipe extracts.
pub proof fn law_targets_are_known_from_the_map_first(
    h: HubState,
    maps: Option<GridModel>,
    s: RegionStore,
    player: u64,
    now: i64,
    r: SessionSnapshot,
)
    requires
        is_snapshot(h, maps, s, player, now, r),
        r.target is Some,
    ensures
        ({
            let t = r.target->Some_0;
            let e = t.entity_id;
            &&& maps matches Some(m) ==> (m.resources.nodes.dom().contains(e) ==> t.resource_id == Some(
                m.resources.ids[m.resources.nodes[e].index as int],
            ))
            &&& (maps matches Some(m) ==> !m.resources.nodes.dom().contains(e)) && s.resource@.dom().contains(e) && (
            forall|j: int|
                0 <= j < log_of(h.spawns, s.region).len() ==> (#[trigger] log_of(h.spawns, s.region)[j]).entity_id != e)
                ==> t.resource_id == Some(s.resource@[e])
            &&& h.targets.dom().contains(e) ==> t.health == h.targets[e].health
            &&& !h.targets.dom().contains(e) ==> t.health is None
            &&& maps matches Some(m) ==> (m.place.dom().contains(e) ==> t.location == Some(m.place[e]))
            &&& maps matches Some(m) ==> (!m.place.dom().contains(e) ==> t.location is None)
            &&& maps is None ==> t.location is None
            &&& t.growth_ends_at_ms == s.growth_end(e)
        }),
{
    let e = r.target->Some_0.entity_id;
    let all = log_of(h.spawns, s.region);
    let log = recent_spawns(h, s.region, now);
    if forall|j: int| 0 <= j < all.len() ==> (#[trigger] all[j]).entity_id != e {
        assert forall|j: int| 0 <= j < log.len() implies (#[trigger] log[j]).entity_id != e by {
            all.lemma_filter_contains_rev(is_recent(now), log[j]);
            let k = choose|k: int| 0 <= k < all.len() && all[k] == log[j];
            assert(all[k].entity_id != e);
        }
        lemma_no_spawn(log, e, 0);
    }
}

/// No spawn is of an entity.
proof fn lemma_no_spawn(log: Seq<SpawnEntry>, e: u64, i: int)
    requires
        0 <= i <= log.len(),
        forall|j: int| 0 <= j < log.len() ==> (#[trigger] log[j]).entity_id != e,
    ensures
        spawn_from(log, e, i) is None,
    decreases log.len() - i,
{
    if i < log.len() {
        lemma_no_spawn(log, e, i + 1);
    }
}

/// A session has the claim of the tile that the player stands on, where the map
/// has one there and its row is known. Off the overworld, and where the map has
/// none, it has no claim.
pub proof fn law_a_session_tells_the_claim_under_the_player(
    h: HubState,
    m: GridModel,
    s: RegionStore,
    player: u64,
    now: i64,
    r: SessionSnapshot,
    tile: (i32, i32),
    k: int,
)
    requires
        is_snapshot(h, Some(m), s, player, now, r),
        s.tile(player) == Some(tile),
        is_cell_of(m.region, tile, k),
        claim_of(m.overlay[k]) < m.claims.len(),
    ensures
        ({
            let i = claim_of(m.overlay[k]);
            let id = m.claims[i as int];
            &&& i != 0 && id != 0 && s.claim@.dom().contains(id) ==> (r.claim matches Some(c) && *c == s.claim@[id])
            &&& i == 0 ==> r.claim is None
            &&& i != 0 && id != 0 && !s.claim@.dom().contains(id) ==> r.claim is None
        }),
{
    let lx = tile.0 - crate::roads::coords::region_corner(m.region as int).0;
    let lz = tile.1 - crate::roads::coords::region_corner(m.region as int).1;
    assert(lz * 7680 + lx == k);
}

/// A player whom the region does not have in the overworld stands on no claim.
pub proof fn law_no_claim_off_the_overworld(
    h: HubState,
    maps: Option<GridModel>,
    s: RegionStore,
    player: u64,
    now: i64,
    r: SessionSnapshot,
)
    requires
        is_snapshot(h, maps, s, player, now, r),
        s.tile(player) is None || maps is None,
    ensures
        r.claim is None,
{
}

/// A spawn of the last half hour in the region is told of just where the map has
/// a place of it, and the claim there is the one that the player stands on: none
/// for a player who stands on no claim that is known.
pub proof fn law_spawns_of_the_same_claim_are_told(
    h: HubState,
    maps: Option<GridModel>,
    s: RegionStore,
    player: u64,
    now: i64,
    r: SessionSnapshot,
    e: SpawnEntry,
)
    requires
        is_snapshot(h, maps, s, player, now, r),
    ensures
        (exists|i: int| 0 <= i < r.activity_spawns@.len() && (#[trigger] r.activity_spawns@[i]).spawn == e) <==> {
            &&& log_of(h.spawns, s.region).contains(e)
            &&& e.at_unix_ms >= now - 1_800_000
            &&& maps matches Some(m)
            &&& m.place.dom().contains(e.entity_id)
            &&& claim_under(maps, Some(m.place[e.entity_id])) == (if r.claim is Some {
                claim_under(maps, s.tile(player))
            } else {
                None
            })
        },
        forall|i: int|
            0 <= i < r.activity_spawns@.len() ==> {
                let t = #[trigger] r.activity_spawns@[i];
                &&& maps matches Some(m)
                &&& m.place.dom().contains(t.spawn.entity_id)
                &&& t.location == m.place[t.spawn.entity_id]
                &&& t.growth_ends_at_ms == s.growth_end(t.spawn.entity_id)
                &&& h.targets.dom().contains(t.spawn.entity_id) ==> t.health == h.targets[t.spawn.entity_id].health
            },
{
    let claim = claim_row(maps, s, s.tile(player));
    let scope = match claim {
        Some(_) => claim_under(maps, s.tile(player)),
        None => None,
    };
    let all = log_of(h.spawns, s.region);
    let recent = all.filter(is_recent(now));
    let f = in_scope(maps, scope);
    let kept = recent.filter(f);
    assert(are_spawns(h, maps, s, kept, r.activity_spawns@));
    assert forall|i: int| 0 <= i < r.activity_spawns@.len() implies is_spawn(
        h,
        maps,
        s,
        kept[i],
        #[trigger] r.activity_spawns@[i],
    ) by {}
    if exists|i: int| 0 <= i < r.activity_spawns@.len() && (#[trigger] r.activity_spawns@[i]).spawn == e {
        let i = choose|i: int| 0 <= i < r.activity_spawns@.len() && (#[trigger] r.activity_spawns@[i]).spawn == e;
        assert(kept[i] == e);
        recent.lemma_filter_pred(f, i);
        recent.lemma_filter_contains_rev(f, e);
        let j = choose|j: int| 0 <= j < recent.len() && recent[j] == e;
        all.lemma_filter_pred(is_recent(now), j);
        all.lemma_filter_contains_rev(is_recent(now), e);
    }
    if all.contains(e) && is_recent(now)(e) && f(e) {
        let j = choose|j: int| 0 <= j < all.len() && all[j] == e;
        all.lemma_filter_contains(is_recent(now), j);
        let k = choose|k: int| 0 <= k < recent.len() && recent[k] == e;
        recent.lemma_filter_contains(f, k);
        let i = choose|i: int| 0 <= i < kept.len() && kept[i] == e;
        assert(r.activity_spawns@[i].spawn == e);
    }
}

/// The targets that are noted for a player are those of their actions, and no
/// others.
pub proof fn law_actions_name_their_targets(actions: Seq<PlayerActionRow>, t: u64)
    ensures
        targets_of(actions).contains(t) <==> exists|i: int|
            0 <= i < actions.len() && (#[trigger] actions[i]).target == Some(t),
    decreases actions.len(),
{
    if actions.len() > 0 {
        let (short, last) = (actions.drop_last(), actions.last());
        let (before, all) = (targets_of(short), targets_of(actions));
        law_actions_name_their_targets(short, t);
        if before.contains(t) {
            let k = choose|k: int| 0 <= k < before.len() && before[k] == t;
            assert(all[k] == t);
            let i = choose|i: int| 0 <= i < short.len() && (#[trigger] short[i]).target == Some(t);
            assert(actions[i].target == Some(t));
        }
        if last.target == Some(t) {
            assert(all[before.len() as int] == t);
            assert(actions[actions.len() - 1].target == Some(t));
        }
        if exists|i: int| 0 <= i < actions.len() && (#[trigger] actions[i]).target == Some(t) {
            let i = choose|i: int| 0 <= i < actions.len() && (#[trigger] actions[i]).target == Some(t);
            if i < short.len() {
                assert(short[i].target == Some(t));
            }
        }
        if all.contains(t) && !before.contains(t) {
            let k = choose|k: int| 0 <= k < all.len() && all[k] == t;
            assert(k == before.len() || before[k] == t);
        }
    }
}

/// A target that the map does not show is of the type with which it came up, if
/// it did within the last half hour, whatever its row says. Its description is
/// that of its type.
pub proof fn law_what_came_up_is_known_before_its_row(
    h: HubState,
    maps: Option<GridModel>,
    s: RegionStore,
    player: u64,
    now: i64,
    r: SessionSnapshot,
    k: int,
)
    requires
        is_snapshot(h, maps, s, player, now, r),
        r.target is Some,
        maps matches Some(m) ==> !m.resources.nodes.dom().contains(r.target->Some_0.entity_id),
        0 <= k < log_of(h.spawns, s.region).len(),
    ensures
        ({
            let t = r.target->Some_0;
            let log = log_of(h.spawns, s.region);
            &&& log[k].entity_id == t.entity_id && log[k].at_unix_ms + 1_800_000 >= now && (forall|j: int|
                0 <= j < log.len() && j != k ==> (#[trigger] log[j]).entity_id != t.entity_id) ==> t.resource_id == Some(
                log[k].resource_id,
            )
            &&& t.resource_id matches Some(id) ==> (t.desc is Some <==> s.resource_desc@.dom().contains(
                key32(id as int),
            ))
            &&& t.resource_id matches Some(id) ==> (t.desc matches Some(d) ==> *d == s.resource_desc@[key32(id as int)])
            &&& t.resource_id is None ==> t.desc is None
        }),
{
    let t = r.target->Some_0;
    let all = log_of(h.spawns, s.region);
    let f = is_recent(now);
    let log = all.filter(f);
    if all[k].entity_id == t.entity_id && all[k].at_unix_ms + 1_800_000 >= now && (forall|j: int|
        0 <= j < all.len() && j != k ==> (#[trigger] all[j]).entity_id != t.entity_id) {
        all.lemma_filter_contains(f, k);
        let n = choose|n: int| 0 <= n < log.len() && log[n] == all[k];
        assert forall|j: int| 0 <= j < log.len() && (#[trigger] log[j]).entity_id == t.entity_id implies log[j]
            == all[k] by {
            assert(log.contains(log[j]));
            all.lemma_filter_contains_rev(f, log[j]);
            let i = choose|i: int| 0 <= i < all.len() && all[i] == log[j];
            assert(i == k);
        }
        lemma_some_spawn(log, t.entity_id, 0, n);
    }
}

/// A spawn of an entity is found.
proof fn lemma_some_spawn(log: Seq<SpawnEntry>, e: u64, i: int, n: int)
    requires
        0 <= i <= n < log.len(),
        log[n].entity_id == e,
    ensures
        spawn_from(log, e, i) matches Some(k) && i <= k <= n && log[k].entity_id == e,
    decreases n - i,
{
    if log[i].entity_id != e {
        lemma_some_spawn(log, e, i + 1, n);
    }
}

/// A target of which nothing else tells a type is of the type that the recipe of
/// the extraction yields.
pub proof fn law_recipes_tell_what_is_extracted(
    h: HubState,
    maps: Option<GridModel>,
    s: RegionStore,
    player: u64,
    now: i64,
    r: SessionSnapshot,
    i: int,
    recipe: i32,
)
    requires
        is_snapshot(h, maps, s, player, now, r),
        s.player_action@.dom().contains(player),
        0 <= i < s.player_action@[player]@.len(),
        extracts(s.player_action@[player]@[i]),
        forall|j: int| 0 <= j < i ==> !extracts(#[trigger] s.player_action@[player]@[j]),
        s.player_action@[player]@[i].recipe_id == Some(recipe),
        ({
            let e = s.player_action@[player]@[i].target->Some_0;
            &&& maps matches Some(m) ==> !m.resources.nodes.dom().contains(e)
            &&& !s.resource@.dom().contains(e)
            &&& forall|j: int|
                0 <= j < log_of(h.spawns, s.region).len() ==> (#[trigger] log_of(h.spawns, s.region)[j]).entity_id != e
        }),
    ensures
        r.target matches Some(t) && t.resource_id == known(s.extraction_recipe@, key32(recipe as int)),
{
    let actions = s.player_action@[player]@;
    assert(actions == actions_of(s, player));
    let e = actions[i].target->Some_0;
    lemma_extract(actions, actions.len(), i);
    let all = log_of(h.spawns, s.region);
    let log = recent_spawns(h, s.region, now);
    assert forall|j: int| 0 <= j < log.len() implies (#[trigger] log[j]).entity_id != e by {
        assert(log.contains(log[j]));
        all.lemma_filter_contains_rev(is_recent(now), log[j]);
        let k = choose|k: int| 0 <= k < all.len() && all[k] == log[j];
        assert(all[k].entity_id != e);
    }
    lemma_no_spawn(log, e, 0);
}

} // verus!
