//! The state of a player at a moment: place, claim, stamina, buffs, actions,
//! what they act on, and what came up around them.

use vstd::prelude::*;

use crate::bitme::hub::{is_recent, log_of, with_targets, BitmeHub, HubState, SpawnEntry};
use crate::bitme::region_store::{tile_in, tile_of, RegionStore};
use crate::cell::{BuffEntry, Single};
use crate::decode::rows::{ClaimRow, MobileEntityRow, PlayerActionRow, ResourceDescRow, StaminaRow};
use crate::id_table::{key32, key_of_i32};
use crate::roads::coords::{in_region, region_corner, world_to_local, REGION_SIDE};
use crate::roads::grid::{claim_of, get_claim_index};
use crate::roads::join::known;
use crate::roads::store::{GridModel, RoadsRegionGrid};
use crate::text::same_text;

verus! {

/// Name of the stat that bounds stamina.
pub const MAX_STAMINA_STAT: &'static str = "Maximum Stamina";

/// Name of the stat that bounds health.
pub const MAX_HEALTH_STAT: &'static str = "Maximum Health";

/// The action that takes something from a resource.
pub const EXTRACT_ACTION: &'static str = "Extract";

/// The layer of actions of the whole body.
pub const BASE_LAYER: &'static str = "Base";

/// Where a player is.
#[derive(Debug)]
pub struct Position<'a> {
    pub row: &'a MobileEntityRow,
    pub tile_x: i32,
    pub tile_z: i32,
    /// Milliseconds since the row was written.
    pub age_ms: i64,
}

/// Stamina of a player.
#[derive(Debug)]
pub struct StaminaInfo<'a> {
    pub row: &'a StaminaRow,
    pub max: Option<Single>,
    pub max_health: Option<Single>,
}

/// An action of a player.
#[derive(Debug)]
pub struct ActionInfo<'a> {
    pub row: &'a PlayerActionRow,
    pub ends_at_ms: u64,
}

/// What a player acts on.
#[derive(Debug)]
pub struct TargetInfo<'a> {
    pub entity_id: u64,
    pub resource_id: Option<i32>,
    pub desc: Option<&'a ResourceDescRow>,
    pub health: Option<i32>,
    pub growth_ends_at_ms: Option<i64>,
    pub location: Option<(i32, i32)>,
}

/// A resource that came up around a player.
#[derive(Debug)]
pub struct SpawnInfo<'a> {
    pub spawn: SpawnEntry,
    pub desc: Option<&'a ResourceDescRow>,
    pub health: Option<i32>,
    pub location: (i32, i32),
    pub growth_ends_at_ms: Option<i64>,
}

/// The state of a player at a moment.
#[derive(Debug)]
pub struct SessionSnapshot<'a> {
    pub player_entity_id: u64,
    pub username: Option<&'a String>,
    pub signed_in: Option<bool>,
    pub region: u32,
    pub position: Option<Position<'a>>,
    pub claim: Option<&'a ClaimRow>,
    pub stamina: Option<StaminaInfo<'a>>,
    pub buffs: Vec<&'a BuffEntry>,
    pub actions: Vec<ActionInfo<'a>>,
    pub target: Option<TargetInfo<'a>>,
    pub activity_spawns: Vec<SpawnInfo<'a>>,
    pub server_time_ms: i64,
}

/// The value behind an optional reference.
pub open spec fn held<T>(r: Option<&T>) -> Option<T> {
    match r {
        Some(v) => Some(*v),
        None => None,
    }
}

/// The signed number with the bits of an unsigned one.
pub open spec fn signed64(v: u64) -> i64 {
    if v < 0x8000_0000_0000_0000 {
        v as i64
    } else {
        (v - 0x1_0000_0000_0000_0000) as i64
    }
}

/// Milliseconds from a time to now; none for a time to come. The time is read
/// as a signed number, and the difference wraps around.
pub open spec fn elapsed(now: i64, then: u64) -> i64 {
    let age = now.wrapping_sub(signed64(then));
    if age > 0 {
        age
    } else {
        0
    }
}

/// A sum that stays at the largest number.
pub open spec fn saturated(a: u64, b: u64) -> u64 {
    if a + b > u64::MAX {
        u64::MAX
    } else {
        (a + b) as u64
    }
}

/// Whether a buff is more than a placeholder.
pub open spec fn is_live(b: BuffEntry) -> bool {
    b.start_timestamp != 0 || b.duration != 0
}

/// The claim of a world tile, where the region has one there.
pub open spec fn claim_on(m: GridModel, x: int, z: int) -> Option<u64> {
    let lx = x - region_corner(m.region as int).0;
    let lz = z - region_corner(m.region as int).1;
    if in_region(lx, lz) {
        let i = claim_of(m.overlay[lz * REGION_SIDE + lx]);
        if i == 0 || i >= m.claims.len() {
            None
        } else {
            Some(m.claims[i as int])
        }
    } else {
        None
    }
}

/// The claim of a tile, where maps are kept.
pub open spec fn claim_under(maps: Option<GridModel>, tile: Option<(i32, i32)>) -> Option<u64> {
    match (maps, tile) {
        (Some(m), Some(t)) => claim_on(m, t.0 as int, t.1 as int),
        _ => None,
    }
}

/// The row of the claim under a tile.
pub open spec fn claim_row(maps: Option<GridModel>, s: RegionStore, tile: Option<(i32, i32)>) -> Option<ClaimRow> {
    match claim_under(maps, tile) {
        Some(id) if id != 0 => known(s.claim@, id),
        _ => None,
    }
}

/// Place of an entity, where maps are kept.
pub open spec fn placed(maps: Option<GridModel>, entity: u64) -> Option<(i32, i32)> {
    match maps {
        Some(m) => known(m.place, entity),
        None => None,
    }
}

/// The targets of actions, in order.
pub open spec fn targets_of(actions: Seq<PlayerActionRow>) -> Seq<u64>
    decreases actions.len(),
{
    if actions.len() == 0 {
        Seq::empty()
    } else {
        match actions.last().target {
            Some(t) => targets_of(actions.drop_last()).push(t),
            None => targets_of(actions.drop_last()),
        }
    }
}

/// Whether an action with a target extracts.
pub open spec fn extracts(a: PlayerActionRow) -> bool {
    a.target is Some && a.action_type@ == EXTRACT_ACTION@
}

/// Whether an action with a target takes the whole body.
pub open spec fn is_base(a: PlayerActionRow) -> bool {
    a.target is Some && a.layer@ == BASE_LAYER@
}

/// Target and recipe of an action.
pub open spec fn aim(a: PlayerActionRow) -> (u64, Option<i32>) {
    (a.target->Some_0, a.recipe_id)
}

/// Target and recipe of the first action that extracts, among the first `n`.
pub open spec fn extract_aim(actions: Seq<PlayerActionRow>, n: nat) -> Option<(u64, Option<i32>)>
    decreases n,
{
    if n == 0 {
        None
    } else {
        match extract_aim(actions, (n - 1) as nat) {
            Some(t) => Some(t),
            None => if extracts(actions[n - 1]) {
                Some(aim(actions[n - 1]))
            } else {
                None
            },
        }
    }
}

/// Target and recipe of the first action of the whole body, among the first
/// `n`.
pub open spec fn base_aim(actions: Seq<PlayerActionRow>, n: nat) -> Option<(u64, Option<i32>)>
    decreases n,
{
    if n == 0 {
        None
    } else {
        match base_aim(actions, (n - 1) as nat) {
            Some(t) => Some(t),
            None => if is_base(actions[n - 1]) {
                Some(aim(actions[n - 1]))
            } else {
                None
            },
        }
    }
}

/// What a player acts on: what they extract counts before the rest.
pub open spec fn primary_aim(actions: Seq<PlayerActionRow>) -> Option<(u64, Option<i32>)> {
    match extract_aim(actions, actions.len()) {
        Some(t) => Some(t),
        None => base_aim(actions, actions.len()),
    }
}

/// Position of the first spawn of an entity, from `i` on.
pub open spec fn spawn_from(log: Seq<SpawnEntry>, entity: u64, i: int) -> Option<int>
    decreases log.len() - i,
{
    if i < 0 || i >= log.len() {
        None
    } else if log[i].entity_id == entity {
        Some(i)
    } else {
        spawn_from(log, entity, i + 1)
    }
}

/// The resource type of an entity: as the map shows it, else as it came up,
/// else as its row tells, else what the recipe extracts.
pub open spec fn resource_identity(
    maps: Option<GridModel>,
    log: Seq<SpawnEntry>,
    s: RegionStore,
    entity: u64,
    recipe: Option<i32>,
) -> Option<i32> {
    if maps matches Some(m) && m.resources.nodes.dom().contains(entity) {
        Some(maps->Some_0.resources.ids[maps->Some_0.resources.nodes[entity].index as int])
    } else if spawn_from(log, entity, 0) matches Some(i) {
        Some(log[spawn_from(log, entity, 0)->Some_0].resource_id)
    } else if s.resource@.dom().contains(entity) {
        Some(s.resource@[entity])
    } else {
        match recipe {
            Some(id) => known(s.extraction_recipe@, key32(id as int)),
            None => None,
        }
    }
}

/// The description of a resource type that may be unknown.
pub open spec fn desc_for(s: RegionStore, resource_id: Option<i32>) -> Option<ResourceDescRow> {
    match resource_id {
        Some(id) => s.desc(id),
        None => None,
    }
}

/// Health of an entity, where the hub has it.
pub open spec fn health_of(h: HubState, entity: u64) -> Option<i32> {
    match known(h.targets, entity) {
        Some(t) => t.health,
        None => None,
    }
}

/// The spawns of a region that are told of.
pub open spec fn recent_spawns(h: HubState, region: u32, now: i64) -> Seq<SpawnEntry> {
    log_of(h.spawns, region).filter(is_recent(now))
}

/// Whether what is told of a target is so.
pub open spec fn is_target(
    h: HubState,
    maps: Option<GridModel>,
    s: RegionStore,
    aim: (u64, Option<i32>),
    now: i64,
    t: TargetInfo,
) -> bool {
    &&& t.entity_id == aim.0
    &&& t.resource_id == resource_identity(maps, recent_spawns(h, s.region, now), s, aim.0, aim.1)
    &&& held(t.desc) == desc_for(s, t.resource_id)
    &&& t.health == health_of(h, aim.0)
    &&& t.growth_ends_at_ms == s.growth_end(aim.0)
    &&& t.location == placed(maps, aim.0)
}

/// Spawns with a place whose claim is the given one.
pub open spec fn in_scope(maps: Option<GridModel>, scope: Option<u64>) -> spec_fn(SpawnEntry) -> bool {
    |e: SpawnEntry| placed(maps, e.entity_id) is Some && claim_under(maps, placed(maps, e.entity_id)) == scope
}

/// Whether what is told of a spawn is so.
pub open spec fn is_spawn(h: HubState, maps: Option<GridModel>, s: RegionStore, e: SpawnEntry, i: SpawnInfo) -> bool {
    &&& i.spawn == e
    &&& held(i.desc) == s.desc(e.resource_id)
    &&& i.health == health_of(h, e.entity_id)
    &&& Some(i.location) == placed(maps, e.entity_id)
    &&& i.growth_ends_at_ms == s.growth_end(e.entity_id)
}

/// The actions of a player.
pub open spec fn actions_of(s: RegionStore, player: u64) -> Seq<PlayerActionRow> {
    match known(s.player_action@, player) {
        Some(list) => list@,
        None => Seq::empty(),
    }
}

/// The buffs of a player.
pub open spec fn buffs_of(s: RegionStore, player: u64) -> Seq<BuffEntry> {
    match known(s.active_buff@, player) {
        Some(list) => list@,
        None => Seq::empty(),
    }
}

/// Whether what is told of a place is so.
pub open spec fn is_position(row: Option<MobileEntityRow>, now: i64, p: Option<Position>) -> bool {
    match (row, p) {
        (Some(row), Some(p)) => {
            &&& *p.row == row
            &&& p.tile_x == tile_of(row.location_x as int)
            &&& p.tile_z == tile_of(row.location_z as int)
            &&& p.age_ms == elapsed(now, row.timestamp_ms)
        },
        (None, None) => true,
        _ => false,
    }
}

/// Whether what is told of stamina is so.
pub open spec fn is_stamina(s: RegionStore, player: u64, i: Option<StaminaInfo>) -> bool {
    match (known(s.stamina@, player), i) {
        (Some(row), Some(i)) => {
            &&& *i.row == row
            &&& i.max == s.stat(player, MAX_STAMINA_STAT@)
            &&& i.max_health == s.stat(player, MAX_HEALTH_STAT@)
        },
        (None, None) => true,
        _ => false,
    }
}

/// Buffs that are more than placeholders.
pub open spec fn live_buffs() -> spec_fn(BuffEntry) -> bool {
    |b: BuffEntry| is_live(b)
}

/// The values behind references.
pub open spec fn all_held<T>(s: Seq<&T>) -> Seq<T> {
    s.map_values(|v: &T| *v)
}

/// Whether what is told of actions is so.
pub open spec fn are_actions(rows: Seq<PlayerActionRow>, list: Seq<ActionInfo>) -> bool {
    &&& list.len() == rows.len()
    &&& forall|i: int|
        0 <= i < rows.len() ==> *(#[trigger] list[i]).row == rows[i] && list[i].ends_at_ms == saturated(
            rows[i].start_time_ms,
            rows[i].duration_ms,
        )
}

/// Whether what is told of spawns is so.
pub open spec fn are_spawns(
    h: HubState,
    maps: Option<GridModel>,
    s: RegionStore,
    kept: Seq<SpawnEntry>,
    list: Seq<SpawnInfo>,
) -> bool {
    &&& list.len() == kept.len()
    &&& forall|i: int| 0 <= i < kept.len() ==> is_spawn(h, maps, s, kept[i], #[trigger] list[i])
}

/// Whether a snapshot tells the state of a player. The hub is taken after it
/// noted the targets of the player.
pub open spec fn is_snapshot(
    h: HubState,
    maps: Option<GridModel>,
    s: RegionStore,
    player: u64,
    now: i64,
    r: SessionSnapshot,
) -> bool {
    let claim = claim_row(maps, s, s.tile(player));
    let scope = match claim {
        Some(_) => claim_under(maps, s.tile(player)),
        None => None,
    };
    &&& r.player_entity_id == player
    &&& r.region == s.region
    &&& r.server_time_ms == now
    &&& held(r.username) == known(s.player_username@, player)
    &&& r.signed_in == known(s.player_state@, player)
    &&& is_position(known(s.mobile_entity@, player), now, r.position)
    &&& held(r.claim) == claim
    &&& is_stamina(s, player, r.stamina)
    &&& all_held(r.buffs@) == buffs_of(s, player).filter(live_buffs())
    &&& are_actions(actions_of(s, player), r.actions@)
    &&& match (primary_aim(actions_of(s, player)), r.target) {
        (Some(aim), Some(t)) => is_target(h, maps, s, aim, now, t),
        (None, None) => true,
        _ => false,
    }
    &&& are_spawns(
        h,
        maps,
        s,
        recent_spawns(h, s.region, now).filter(in_scope(maps, scope)),
        r.activity_spawns@,
    )
}

/// The model of maps that may not be kept.
pub open spec fn maps_model(maps: Option<&RoadsRegionGrid>) -> Option<GridModel> {
    match maps {
        Some(g) => Some(g@),
        None => None,
    }
}

/// Whether maps that are kept are well formed.
pub open spec fn maps_wf(maps: Option<&RoadsRegionGrid>) -> bool {
    maps matches Some(g) ==> g.wf()
}

/// The claim of a world tile.
pub fn claim_entity_at(maps: Option<&RoadsRegionGrid>, x: i32, z: i32) -> (r: Option<u64>)
    requires
        maps_wf(maps),
    ensures
        r == claim_under(maps_model(maps), Some((x, z))),
{
    let grid = match maps {
        Some(g) => g,
        None => {
            return None;
        },
    };
    match world_to_local(grid.region, x, z) {
        Some((lx, lz)) => {
            let idx: u16 = get_claim_index(grid.overlay.get(lx, lz));
            let table = grid.claim_index.claim_table();
            if idx == 0 || idx as usize >= table.len() {
                None
            } else {
                Some(table[idx as usize])
            }
        },
        None => None,
    }
}

/// The row of the claim under a world tile.
pub fn claim_at<'a>(maps: Option<&RoadsRegionGrid>, s: &'a RegionStore, x: i32, z: i32) -> (r: Option<&'a ClaimRow>)
    requires
        maps_wf(maps),
        s.wf(),
    ensures
        held(r) == claim_row(maps_model(maps), *s, Some((x, z))),
{
    match claim_entity_at(maps, x, z) {
        Some(id) => if id == 0 {
            None
        } else {
            s.claim.get(id)
        },
        None => None,
    }
}

/// Place of an entity in the world.
pub fn spawn_tile(maps: Option<&RoadsRegionGrid>, entity_id: u64) -> (r: Option<(i32, i32)>)
    requires
        maps_wf(maps),
    ensures
        r == placed(maps_model(maps), entity_id),
{
    match maps {
        Some(g) => match g.join.location_by_entity.get(entity_id) {
            Some(t) => Some(*t),
            None => None,
        },
        None => None,
    }
}

/// Resource type of the first spawn of an entity.
fn spawned_as(log: &[SpawnEntry], entity_id: u64) -> (r: Option<i32>)
    ensures
        r == match spawn_from(log@, entity_id, 0) {
            Some(i) => Some(log@[i].resource_id),
            None => None,
        },
{
    let mut i: usize = 0;
    while i < log.len()
        invariant
            i <= log@.len(),
            spawn_from(log@, entity_id, 0) == spawn_from(log@, entity_id, i as int),
        decreases log.len() - i,
    {
        if log[i].entity_id == entity_id {
            return Some(log[i].resource_id);
        }
        i += 1;
    }
    None
}

/// Tells what is known of an entity that a player acts on.
pub fn build_target<'a>(
    hub: &BitmeHub,
    maps: Option<&RoadsRegionGrid>,
    s: &'a RegionStore,
    target: u64,
    recipe_id: Option<i32>,
    now_unix_ms: i64,
) -> (r: TargetInfo<'a>)
    requires
        hub.wf(),
        maps_wf(maps),
        s.wf(),
    ensures
        is_target(hub@, maps_model(maps), *s, (target, recipe_id), now_unix_ms, r),
{
    let mapped: Option<i32> = match maps {
        Some(g) => match g.resource_map.resource_of(target) {
            Some((id, _)) => Some(id),
            None => None,
        },
        None => None,
    };
    let spawned: Option<i32> = if mapped.is_some() {
        mapped
    } else {
        let log = hub.spawns(s.region, now_unix_ms);
        spawned_as(log.as_slice(), target)
    };
    let resource_id: Option<i32> = if spawned.is_some() {
        spawned
    } else {
        match s.resource.get(target) {
            Some(id) => Some(*id),
            None => match recipe_id {
                Some(recipe) => match s.extraction_recipe.get(key_of_i32(recipe)) {
                    Some(id) => Some(*id),
                    None => None,
                },
                None => None,
            },
        }
    };
    let desc = match resource_id {
        Some(id) => s.desc_of(id),
        None => None,
    };
    TargetInfo {
        entity_id: target,
        resource_id,
        desc,
        health: hub.target_health(target),
        growth_ends_at_ms: s.growth_window_end_ms(target),
        location: spawn_tile(maps, target),
    }
}

/// A sum that stays at the largest number.
fn saturating_sum(a: u64, b: u64) -> (r: u64)
    ensures
        r == saturated(a, b),
{
    if b > u64::MAX - a {
        u64::MAX
    } else {
        a + b
    }
}

/// Milliseconds from a time to now; none for a time to come.
fn elapsed_ms(now: i64, then: u64) -> (r: i64)
    ensures
        r == elapsed(now, then),
{
    let at: i64 = if then < 0x8000_0000_0000_0000 {
        then as i64
    } else {
        -((u64::MAX - then) as i64) - 1
    };
    let age: i64 = now.wrapping_sub(at);
    if age > 0 {
        age
    } else {
        0
    }
}

/// The buffs that are more than placeholders.
fn buff_list<'a>(list: &'a [BuffEntry]) -> (r: Vec<&'a BuffEntry>)
    ensures
        all_held(r@) == list@.filter(live_buffs()),
{
    let mut out: Vec<&'a BuffEntry> = Vec::new();
    let mut i: usize = 0;
    proof {
        reveal(Seq::filter);
        assert(all_held(out@) =~= list@.take(0).filter(live_buffs()));
    }
    while i < list.len()
        invariant
            i <= list@.len(),
            all_held(out@) == list@.take(i as int).filter(live_buffs()),
        decreases list.len() - i,
    {
        let b: &'a BuffEntry = &list[i];
        proof {
            reveal(Seq::filter);
            assert(list@.take(i + 1).drop_last() =~= list@.take(i as int));
        }
        let ghost before = out@;
        if b.start_timestamp != 0 || b.duration != 0 {
            out.push(b);
            assert(all_held(out@) =~= all_held(before).push(*b));
        }
        i += 1;
    }
    assert(list@.take(i as int) =~= list@);
    out
}

/// Actions with the times at which they end.
fn action_list<'a>(rows: &'a [PlayerActionRow]) -> (r: Vec<ActionInfo<'a>>)
    ensures
        are_actions(rows@, r@),
{
    let mut out: Vec<ActionInfo<'a>> = Vec::new();
    let mut i: usize = 0;
    while i < rows.len()
        invariant
            i <= rows@.len(),
            are_actions(rows@.take(i as int), out@),
        decreases rows.len() - i,
    {
        let row: &'a PlayerActionRow = &rows[i];
        out.push(ActionInfo { row, ends_at_ms: saturating_sum(row.start_time_ms, row.duration_ms) });
        i += 1;
    }
    assert(rows@.take(i as int) =~= rows@);
    out
}

/// The targets of actions, and what the player acts on.
fn action_targets(rows: &[PlayerActionRow]) -> (r: (Vec<u64>, Option<(u64, Option<i32>)>))
    ensures
        r.0@ == targets_of(rows@),
        r.1 == primary_aim(rows@),
{
    let mut targets: Vec<u64> = Vec::new();
    let mut extract: Option<(u64, Option<i32>)> = None;
    let mut base: Option<(u64, Option<i32>)> = None;
    let mut i: usize = 0;
    while i < rows.len()
        invariant
            i <= rows@.len(),
            targets@ == targets_of(rows@.take(i as int)),
            extract == extract_aim(rows@, i as nat),
            base == base_aim(rows@, i as nat),
        decreases rows.len() - i,
    {
        let row = &rows[i];
        proof {
            assert(rows@.take(i + 1).drop_last() =~= rows@.take(i as int));
        }
        if let Some(t) = row.target {
            targets.push(t);
            if extract.is_none() && same_text(row.action_type.as_str(), EXTRACT_ACTION) {
                extract = Some((t, row.recipe_id));
            }
            if base.is_none() && same_text(row.layer.as_str(), BASE_LAYER) {
                base = Some((t, row.recipe_id));
            }
        }
        i += 1;
    }
    assert(rows@.take(i as int) =~= rows@);
    if extract.is_some() {
        (targets, extract)
    } else {
        (targets, base)
    }
}

/// Whether two optional numbers are the same.
fn same_id(a: Option<u64>, b: Option<u64>) -> (r: bool)
    ensures
        r <==> a == b,
{
    match (a, b) {
        (Some(x), Some(y)) => x == y,
        (None, None) => true,
        _ => false,
    }
}

/// What came up in the scope of a player: on their claim, or off every claim.
fn scoped_spawns<'a>(
    hub: &BitmeHub,
    maps: Option<&RoadsRegionGrid>,
    s: &'a RegionStore,
    scope: Option<u64>,
    now_unix_ms: i64,
) -> (r: Vec<SpawnInfo<'a>>)
    requires
        hub.wf(),
        maps_wf(maps),
        s.wf(),
    ensures
        are_spawns(
            hub@,
            maps_model(maps),
            *s,
            recent_spawns(hub@, s.region, now_unix_ms).filter(in_scope(maps_model(maps), scope)),
            r@,
        ),
{
    let log = hub.spawns(s.region, now_unix_ms);
    let ghost m = maps_model(maps);
    let ghost wanted = in_scope(m, scope);
    let mut out: Vec<SpawnInfo<'a>> = Vec::new();
    let mut i: usize = 0;
    proof {
        reveal(Seq::filter);
        assert(log@.take(0).filter(wanted) =~= Seq::<SpawnEntry>::empty());
    }
    while i < log.len()
        invariant
            hub.wf(),
            maps_wf(maps),
            s.wf(),
            m == maps_model(maps),
            wanted == in_scope(m, scope),
            i <= log@.len(),
            are_spawns(hub@, m, *s, log@.take(i as int).filter(wanted), out@),
        decreases log.len() - i,
    {
        let spawn: SpawnEntry = log[i];
        let ghost before = log@.take(i as int).filter(wanted);
        proof {
            reveal(Seq::filter);
            assert(log@.take(i + 1).drop_last() =~= log@.take(i as int));
        }
        if let Some(tile) = spawn_tile(maps, spawn.entity_id) {
            if same_id(claim_entity_at(maps, tile.0, tile.1), scope) {
                let info = SpawnInfo {
                    spawn,
                    desc: s.desc_of(spawn.resource_id),
                    health: hub.target_health(spawn.entity_id),
                    location: tile,
                    growth_ends_at_ms: s.growth_window_end_ms(spawn.entity_id),
                };
                assert(is_spawn(hub@, m, *s, spawn, info));
                out.push(info);
                assert(wanted(spawn));
                assert(log@.take(i + 1).filter(wanted) =~= before.push(spawn));
            }
        }
        i += 1;
    }
    assert(log@.take(i as int) =~= log@);
    out
}

/// Tells the state of a player who has rows in a region, and has the hub keep
/// the health of what they act on.
pub fn build_session_snapshot<'a>(
    hub: &mut BitmeHub,
    maps: Option<&RoadsRegionGrid>,
    s: &'a RegionStore,
    player: u64,
    now: u64,
    now_unix_ms: i64,
) -> (r: SessionSnapshot<'a>)
    requires
        old(hub).wf(),
        maps_wf(maps),
        s.wf(),
    ensures
        final(hub).wf(),
        final(hub)@ == (HubState {
            targets: with_targets(
                old(hub)@.targets,
                targets_of(actions_of(*s, player)),
                now,
                targets_of(actions_of(*s, player)).len(),
            ).0,
            ..old(hub)@
        }),
        is_snapshot(final(hub)@, maps_model(maps), *s, player, now_unix_ms, r),
{
    let position = match s.mobile_entity.get(player) {
        Some(row) => Some(
            Position {
                row,
                tile_x: tile_in(row.location_x),
                tile_z: tile_in(row.location_z),
                age_ms: elapsed_ms(now_unix_ms, row.timestamp_ms),
            },
        ),
        None => None,
    };
    let tile = s.overworld_tile(player);
    let (under, claim) = match tile {
        Some((x, z)) => (claim_entity_at(maps, x, z), claim_at(maps, s, x, z)),
        None => (None, None),
    };
    let scope: Option<u64> = if claim.is_some() {
        under
    } else {
        None
    };
    let stamina = match s.stamina.get(player) {
        Some(row) => Some(
            StaminaInfo {
                row,
                max: s.stat_value(player, MAX_STAMINA_STAT),
                max_health: s.stat_value(player, MAX_HEALTH_STAT),
            },
        ),
        None => None,
    };
    let buffs = match s.active_buff.get(player) {
        Some(list) => buff_list(list.as_slice()),
        None => {
            let none: Vec<&'a BuffEntry> = Vec::new();
            proof {
                reveal(Seq::filter);
                assert(all_held(none@) =~= Seq::<BuffEntry>::empty().filter(live_buffs()));
            }
            none
        },
    };
    let no_rows: Vec<PlayerActionRow> = Vec::new();
    let (actions, targets, aim) = match s.player_action.get(player) {
        Some(list) => {
            let (targets, aim) = action_targets(list.as_slice());
            (action_list(list.as_slice()), targets, aim)
        },
        None => {
            let (targets, aim) = action_targets(no_rows.as_slice());
            (Vec::new(), targets, aim)
        },
    };
    hub.note_targets(targets.as_slice(), now);
    let target = match aim {
        Some((t, recipe)) => Some(build_target(hub, maps, s, t, recipe, now_unix_ms)),
        None => None,
    };
    let activity_spawns = scoped_spawns(hub, maps, s, scope, now_unix_ms);
    SessionSnapshot {
        player_entity_id: player,
        username: s.player_username.get(player),
        signed_in: match s.player_state.get(player) {
            Some(b) => Some(*b),
            None => None,
        },
        region: s.region,
        position,
        claim,
        stamina,
        buffs,
        actions,
        target,
        activity_spawns,
        server_time_ms: now_unix_ms,
    }
}

/// Where a player stands off every claim that is known, no spawn on a claim is
/// told of; on a claim, no spawn off it.
pub proof fn law_spawns_are_scoped(
    h: HubState,
    maps: Option<GridModel>,
    s: RegionStore,
    player: u64,
    now: i64,
    r: SessionSnapshot,
    i: int,
)
    requires
        is_snapshot(h, maps, s, player, now, r),
        0 <= i < r.activity_spawns@.len(),
    ensures
        r.claim is None ==> claim_under(maps, Some(r.activity_spawns@[i].location)) is None,
        r.claim is Some ==> claim_under(maps, Some(r.activity_spawns@[i].location)) == claim_under(maps, s.tile(player)),
{
    let claim = claim_row(maps, s, s.tile(player));
    let scope = match claim {
        Some(_) => claim_under(maps, s.tile(player)),
        None => None,
    };
    let log = recent_spawns(h, s.region, now);
    let kept = log.filter(in_scope(maps, scope));
    assert(is_spawn(h, maps, s, kept[i], r.activity_spawns@[i]));
    log.lemma_filter_pred(in_scope(maps, scope), i);
}

/// The type of a target that neither the map, nor the log, nor a row shows,
/// and whose action has no recipe, is left open.
pub proof fn law_identity_is_never_guessed(maps: Option<GridModel>, log: Seq<SpawnEntry>, s: RegionStore, entity: u64)
    requires
        maps matches Some(m) ==> !m.resources.nodes.dom().contains(entity),
        spawn_from(log, entity, 0) is None,
        !s.resource@.dom().contains(entity),
    ensures
        resource_identity(maps, log, s, entity, None) is None,
{
}

} // verus!
