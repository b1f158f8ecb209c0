//! Sessions of phones, the health of what their players work on, and the
//! resources that came up lately.
//!
//! Health comes for every resource of a region, far too much to keep: it is
//! kept for the targets of open sessions alone. Times are milliseconds, of the
//! wall clock where they say so and of a steady clock else.

use vstd::prelude::*;

use crate::cell::{i32_in, u64_in};
use crate::decode::columns::{
    resolve_resource_cols, resolve_resource_health_cols, ResourceCols, ResourceHealthCols, RESOURCE_HEALTH_TABLE,
    RESOURCE_TABLE,
};
use crate::decode::fast::ResourceFast;
use crate::decode::rows::{decode_resource_health_with_fields, decode_resource_with_fields, ResourceRow};
use crate::id_table::{key32, key_of_i32, IdTable};
use crate::roads::apply::RowInput;
use crate::roads::join::known;
use crate::roads::meta::fast_found;
use crate::schema::{columns, either, failed, fields_of, DecodeError, MirroredSchema};
use crate::text::same_text;

verus! {

/// A session that was quiet for this long is closed.
pub const SESSION_TTL_MS: u64 = 900_000;

/// Largest number of sessions.
pub const MAX_SESSIONS: usize = 8192;

/// Largest number of targets.
pub const MAX_TARGETS: usize = 8192;

/// A target that nothing was heard of for this long is dropped.
pub const TARGET_TTL_MS: u64 = 1_800_000;

/// A spawn is told of for this long.
pub const SPAWN_TTL_MS: i64 = 1_800_000;

/// Largest number of spawns that are kept for a region.
pub const SPAWN_CAP: usize = 512;

/// Health of a target, where it is known.
#[derive(Debug, Clone, Copy, PartialEq, Eq)]
pub struct TargetHealth {
    pub health: Option<i32>,
    pub last_update: u64,
}

/// Counts of what a hub holds.
#[derive(Debug)]
pub struct BitmeStats {
    pub sessions: usize,
    pub tracked_targets: usize,
    /// Regions with the spawns that are told of.
    pub spawns: Vec<(u64, usize)>,
}

/// A resource that came up.
#[derive(Debug, Clone, Copy, PartialEq, Eq, Structural)]
pub struct SpawnEntry {
    pub entity_id: u64,
    pub resource_id: i32,
    /// Wall clock.
    pub at_unix_ms: i64,
}

/// Columns that the hub reads in a region.
#[derive(Debug, Clone, Copy)]
pub struct BitmeRegionMeta {
    pub resource_health_cols: ResourceHealthCols,
    pub resource_cols: ResourceCols,
    pub resource_fast: Option<ResourceFast>,
}

impl BitmeRegionMeta {
    /// The first table or column that the schema lacks, as an error.
    pub open spec fn missing(schema: MirroredSchema) -> Option<DecodeError> {
        either(
            failed(columns(schema, RESOURCE_HEALTH_TABLE)),
            either(
                failed(columns(schema, RESOURCE_TABLE)),
                either(ResourceHealthCols::missing(schema), ResourceCols::missing(schema)),
            ),
        )
    }

    /// Finds the columns that the hub reads in a region.
    pub fn from_schema(schema: &MirroredSchema) -> (r: Result<Self, DecodeError>)
        requires
            columns(*schema, RESOURCE_TABLE) matches Ok(f) ==> 32 * f.len() <= usize::MAX,
        ensures
            match r {
                Ok(m) => {
                    &&& m.resource_health_cols.found(*schema)
                    &&& m.resource_cols.found(*schema)
                    &&& fast_found(*schema, m.resource_fast)
                    &&& Self::missing(*schema) is None
                },
                Err(e) => Self::missing(*schema) == Some(e),
            },
    {
        let _ = fields_of(schema, RESOURCE_HEALTH_TABLE)?;
        let fields = fields_of(schema, RESOURCE_TABLE)?;
        let resource_health_cols: ResourceHealthCols = resolve_resource_health_cols(schema)?;
        let resource_cols: ResourceCols = resolve_resource_cols(schema)?;
        Ok(
            BitmeRegionMeta {
                resource_health_cols,
                resource_cols,
                resource_fast: ResourceFast::try_from_fields(fields),
            },
        )
    }
}

/// Rows of a table in a live update.
#[derive(Debug)]
pub struct LiveTable {
    pub name: String,
    pub deletes: Vec<RowInput>,
    pub inserts: Vec<RowInput>,
}

/// Whether two times lie closer together than a bound.
pub open spec fn within(now: u64, then: u64, ttl: u64) -> bool {
    now - then < ttl
}

/// What the hub knows.
#[verifier::ext_equal]
pub struct HubState {
    /// When each session was seen last.
    pub sessions: Map<u64, u64>,
    pub targets: Map<u64, TargetHealth>,
    /// Spawns of each region, oldest first.
    pub spawns: Map<u64, Seq<SpawnEntry>>,
}

impl HubState {
    /// The hub with quiet sessions closed, where there are too many for another
    /// one.
    pub open spec fn making_room(self, player: u64, now: u64) -> HubState {
        if self.sessions.dom().len() >= MAX_SESSIONS && !self.sessions.dom().contains(player) {
            HubState {
                sessions: open_sessions(self.sessions, now),
                targets: fresh_targets(self.targets, now),
                ..self
            }
        } else {
            self
        }
    }

    /// The hub after a session was seen.
    pub open spec fn opened(self, player: u64, now: u64) -> HubState {
        HubState { sessions: self.sessions.insert(player, now), ..self }
    }

    /// Whether a session took the place of one that was quiet the longest.
    pub open spec fn is_opened_for(self, player: u64, now: u64, oldest: u64, after: HubState) -> bool {
        &&& is_oldest(self.sessions, oldest)
        &&& after == (HubState { sessions: self.sessions.remove(oldest), ..self }).opened(player, now)
    }
}

/// Sessions that are still open.
pub open spec fn open_sessions(m: Map<u64, u64>, now: u64) -> Map<u64, u64> {
    Map::new(|k: u64| m.dom().contains(k) && within(now, m[k], SESSION_TTL_MS), |k: u64| m[k])
}

/// Targets that something was heard of.
pub open spec fn fresh_targets(m: Map<u64, TargetHealth>, now: u64) -> Map<u64, TargetHealth> {
    Map::new(|k: u64| m.dom().contains(k) && within(now, m[k].last_update, TARGET_TTL_MS), |k: u64| m[k])
}

/// Whether a session is one that was quiet the longest.
pub open spec fn is_oldest(m: Map<u64, u64>, k: u64) -> bool {
    m.dom().contains(k) && forall|j: u64| #[trigger] m.dom().contains(j) ==> m[k] <= m[j]
}

/// Targets after one more, as long as there is room. `None` ends the list.
pub open spec fn with_target(m: Map<u64, TargetHealth>, t: u64, now: u64) -> Option<Map<u64, TargetHealth>> {
    if t == 0 || m.dom().contains(t) {
        Some(m)
    } else if m.dom().len() >= MAX_TARGETS {
        None
    } else {
        Some(m.insert(t, TargetHealth { health: None, last_update: now }))
    }
}

/// Targets after the first `n` of a list; the first for which there is no room
/// ends it.
pub open spec fn with_targets(m: Map<u64, TargetHealth>, list: Seq<u64>, now: u64, n: nat) -> (Map<u64, TargetHealth>, bool)
    decreases n,
{
    if n == 0 {
        (m, false)
    } else {
        let before = with_targets(m, list, now, (n - 1) as nat);
        if before.1 {
            before
        } else {
            match with_target(before.0, list[n - 1], now) {
                Some(after) => (after, false),
                None => (before.0, true),
            }
        }
    }
}

/// Targets after something was heard of the health of one.
pub open spec fn health_heard(m: Map<u64, TargetHealth>, e: u64, health: Option<i32>, now: u64) -> Map<
    u64,
    TargetHealth,
> {
    if m.dom().contains(e) {
        m.insert(e, TargetHealth { health, last_update: now })
    } else {
        m
    }
}

/// Being another entity.
pub open spec fn is_other(e: u64) -> spec_fn(SpawnEntry) -> bool {
    |s: SpawnEntry| s.entity_id != e
}

/// Being told of at a time.
pub open spec fn is_recent(now: i64) -> spec_fn(SpawnEntry) -> bool {
    |s: SpawnEntry| s.at_unix_ms >= now - SPAWN_TTL_MS
}

/// Spawns after one more: those that are not told of any more go, and the
/// oldest goes where there is no room.
pub open spec fn with_spawn(log: Seq<SpawnEntry>, s: SpawnEntry) -> Seq<SpawnEntry> {
    let recent = log.filter(is_recent(s.at_unix_ms));
    if recent.len() >= SPAWN_CAP {
        recent.drop_first().push(s)
    } else {
        recent.push(s)
    }
}

/// The spawns of a region.
pub open spec fn log_of(m: Map<u64, Seq<SpawnEntry>>, region: u32) -> Seq<SpawnEntry> {
    match known(m, region as u64) {
        Some(log) => log,
        None => Seq::empty(),
    }
}

/// What a row says of the health of a resource, where it can be read.
pub open spec fn health_row(meta: BitmeRegionMeta, input: RowInput) -> Option<(u64, i32)> {
    match input.cells {
        None => None,
        Some(c) => match (
            u64_in(c@[meta.resource_health_cols.entity_id as int], "resource_health.entity_id"),
            i32_in(c@[meta.resource_health_cols.health as int], "resource_health.health"),
        ) {
            (Ok(e), Ok(h)) => Some((e, h)),
            _ => None,
        },
    }
}

/// Whether a resource row can be read by position.
pub open spec fn by_position(meta: BitmeRegionMeta, input: RowInput) -> bool {
    match meta.resource_fast {
        Some(f) => f.within(input.bytes@.len()),
        None => false,
    }
}

/// Whether a resource row can be read.
pub open spec fn is_resource_row(meta: BitmeRegionMeta, input: RowInput) -> bool {
    by_position(meta, input) || (input.cells matches Some(c) && ResourceRow::error(c@, meta.resource_cols) is None)
}

/// What a row says of a resource.
pub open spec fn reads_resource(meta: BitmeRegionMeta, input: RowInput, r: ResourceRow) -> bool {
    if by_position(meta, input) {
        meta.resource_fast matches Some(f) && f.reads(input.bytes@, r)
    } else {
        input.cells matches Some(c) && r.reads(c@, meta.resource_cols)
    }
}

/// Whether a row has the columns of its table.
pub open spec fn live_fits(meta: BitmeRegionMeta, table: Seq<char>, input: RowInput) -> bool {
    match input.cells {
        None => true,
        Some(c) => if table == RESOURCE_HEALTH_TABLE@ {
            meta.resource_health_cols.fit(c@.len())
        } else if table == RESOURCE_TABLE@ {
            meta.resource_cols.fit(c@.len())
        } else {
            true
        },
    }
}

/// Sessions, targets and spawns.
pub struct BitmeHub {
    sessions: IdTable<u64>,
    targets: IdTable<TargetHealth>,
    spawns: IdTable<Vec<SpawnEntry>>,
}

impl View for BitmeHub {
    type V = HubState;

    closed spec fn view(&self) -> HubState {
        HubState {
            sessions: self.sessions@,
            targets: self.targets@,
            spawns: Map::new(|r: u64| self.spawns@.dom().contains(r), |r: u64| self.spawns@[r]@),
        }
    }
}

impl BitmeHub {
    /// The tables are well formed.
    pub closed spec fn wf(&self) -> bool {
        self.sessions.wf() && self.targets.wf() && self.spawns.wf()
    }

    /// A hub without sessions.
    pub fn new() -> (r: Self)
        ensures
            r.wf(),
            r@ == (HubState { sessions: Map::empty(), targets: Map::empty(), spawns: Map::empty() }),
    {
        let r = BitmeHub { sessions: IdTable::new(), targets: IdTable::new(), spawns: IdTable::new() };
        assert(r@.spawns =~= Map::<u64, Seq<SpawnEntry>>::empty());
        r
    }

    /// Number of sessions.
    pub fn session_count(&self) -> (r: usize)
        requires
            self.wf(),
        ensures
            r == self@.sessions.dom().len(),
    {
        self.sessions.len()
    }

    /// Number of targets.
    pub fn target_count(&self) -> (r: usize)
        requires
            self.wf(),
        ensures
            r == self@.targets.dom().len(),
    {
        self.targets.len()
    }

    /// Closes the sessions that were quiet, and drops the targets that nothing
    /// was heard of.
    fn sweep_sessions(&mut self, now: u64)
        requires
            old(self).wf(),
        ensures
            final(self).wf(),
            final(self)@ == (HubState {
                sessions: open_sessions(old(self)@.sessions, now),
                targets: fresh_targets(old(self)@.targets, now),
                ..old(self)@
            }),
    {
        let ghost was = self@;
        let mut quiet: Vec<u64> = Vec::new();
        let n: usize = self.sessions.len();
        let ghost ids = self.sessions.ids();
        let mut i: usize = 0;
        while i < n
            invariant
                self.wf(),
                was == self@,
                ids == self.sessions.ids(),
                i <= n == ids.len(),
                forall|k: u64| #[trigger]
                    quiet@.contains(k) ==> was.sessions.dom().contains(k) && !within(
                        now,
                        was.sessions[k],
                        SESSION_TTL_MS,
                    ),
                forall|j: int|
                    0 <= j < i && !within(now, was.sessions[#[trigger] ids[j]], SESSION_TTL_MS) ==> quiet@.contains(
                        ids[j],
                    ),
            decreases n - i,
        {
            let id: u64 = self.sessions.id_at(i);
            let then: u64 = *self.sessions.value_at(i);
            let ghost before = quiet@;
            if now >= then && now - then >= SESSION_TTL_MS {
                quiet.push(id);
            }
            proof {
                lemma_pushed(before, quiet@, id);
            }
            i += 1;
        }
        proof {
            self.sessions.lemma_ids();
        }
        self.sessions.remove_all(quiet.as_slice());
        proof {
            assert forall|k: u64| was.sessions.dom().contains(k) && !within(now, was.sessions[k], SESSION_TTL_MS) implies
                quiet@.to_set().contains(k) by {
                assert(ids.to_set().contains(k));
                let j = choose|j: int| 0 <= j < ids.len() && ids[j] == k;
                assert(quiet@.contains(ids[j]));
            }
            assert(self.sessions@ =~= open_sessions(was.sessions, now));
        }
        let mut stale: Vec<u64> = Vec::new();
        let m: usize = self.targets.len();
        let ghost marks = self.targets.ids();
        let mut j: usize = 0;
        while j < m
            invariant
                self.wf(),
                was.targets == self.targets@,
                marks == self.targets.ids(),
                j <= m == marks.len(),
                forall|k: u64| #[trigger]
                    stale@.contains(k) ==> was.targets.dom().contains(k) && !within(
                        now,
                        was.targets[k].last_update,
                        TARGET_TTL_MS,
                    ),
                forall|l: int|
                    0 <= l < j && !within(now, was.targets[#[trigger] marks[l]].last_update, TARGET_TTL_MS)
                        ==> stale@.contains(marks[l]),
            decreases m - j,
        {
            let id: u64 = self.targets.id_at(j);
            let then: u64 = self.targets.value_at(j).last_update;
            let ghost before = stale@;
            if now >= then && now - then >= TARGET_TTL_MS {
                stale.push(id);
            }
            proof {
                lemma_pushed(before, stale@, id);
            }
            j += 1;
        }
        proof {
            self.targets.lemma_ids();
        }
        self.targets.remove_all(stale.as_slice());
        proof {
            assert forall|k: u64| was.targets.dom().contains(k) && !within(
                now,
                was.targets[k].last_update,
                TARGET_TTL_MS,
            ) implies stale@.to_set().contains(k) by {
                assert(marks.to_set().contains(k));
                let l = choose|l: int| 0 <= l < marks.len() && marks[l] == k;
                assert(stale@.contains(marks[l]));
            }
            assert(self.targets@ =~= fresh_targets(was.targets, now));
            assert(self@ =~= (HubState {
                sessions: open_sessions(was.sessions, now),
                targets: fresh_targets(was.targets, now),
                ..was
            }));
        }
    }

    /// A session that was quiet the longest; which of several is left open.
    fn oldest_session(&self) -> (r: Option<u64>)
        requires
            self.wf(),
        ensures
            match r {
                Some(k) => is_oldest(self@.sessions, k),
                None => self@.sessions.dom().len() == 0,
            },
    {
        let n: usize = self.sessions.len();
        if n == 0 {
            return None;
        }
        let ghost ids = self.sessions.ids();
        let ghost m = self.sessions@;
        let mut best: u64 = self.sessions.id_at(0);
        let mut seen: u64 = *self.sessions.value_at(0);
        let mut i: usize = 1;
        while i < n
            invariant
                self.sessions.wf(),
                ids == self.sessions.ids(),
                m == self.sessions@,
                1 <= i <= n == ids.len(),
                m.dom().contains(best),
                seen == m[best],
                forall|j: int| 0 <= j < i ==> seen <= m[#[trigger] ids[j]],
            decreases n - i,
        {
            let then: u64 = *self.sessions.value_at(i);
            if then < seen {
                best = self.sessions.id_at(i);
                seen = then;
            }
            i += 1;
        }
        proof {
            self.sessions.lemma_ids();
            assert forall|k: u64| #[trigger] m.dom().contains(k) implies m[best] <= m[k] by {
                assert(ids.to_set().contains(k));
                let j = choose|j: int| 0 <= j < ids.len() && ids[j] == k;
                assert(seen <= m[ids[j]]);
            }
        }
        Some(best)
    }

    /// Opens a session or keeps it open. With too many sessions, quiet ones are
    /// closed; with still too many, the one that was quiet the longest.
    pub fn touch_session(&mut self, player_entity_id: u64, now: u64)
        requires
            old(self).wf(),
        ensures
            final(self).wf(),
            ({
                let kept = old(self)@.making_room(player_entity_id, now);
                if kept.sessions.dom().len() >= MAX_SESSIONS {
                    exists|k: u64| kept.is_opened_for(player_entity_id, now, k, final(self)@)
                } else {
                    final(self)@ == kept.opened(player_entity_id, now)
                }
            }),
    {
        if self.sessions.len() >= MAX_SESSIONS && !self.sessions.contains(player_entity_id) {
            self.sweep_sessions(now);
        }
        let ghost kept = self@;
        if self.sessions.len() >= MAX_SESSIONS {
            if let Some(k) = self.oldest_session() {
                assert(is_oldest(kept.sessions, k));
                let _ = self.sessions.remove(k);
                let _ = self.sessions.insert(player_entity_id, now);
                assert(self@ =~= (HubState { sessions: kept.sessions.remove(k), ..kept }).opened(
                    player_entity_id,
                    now,
                ));
                assert(kept.is_opened_for(player_entity_id, now, k, self@));
                return ;
            }
            assert(false);
        }
        let _ = self.sessions.insert(player_entity_id, now);
        assert(self@ =~= kept.opened(player_entity_id, now));
    }

    /// Keeps the health of some targets from now on, as long as there is room.
    pub fn note_targets(&mut self, targets: &[u64], now: u64)
        requires
            old(self).wf(),
        ensures
            final(self).wf(),
            final(self)@ == (HubState {
                targets: with_targets(old(self)@.targets, targets@, now, targets@.len()).0,
                ..old(self)@
            }),
    {
        let ghost was = self@;
        let mut i: usize = 0;
        while i < targets.len()
            invariant
                self.wf(),
                i <= targets@.len(),
                !with_targets(was.targets, targets@, now, i as nat).1,
                self@ == (HubState { targets: with_targets(was.targets, targets@, now, i as nat).0, ..was }),
                was == old(self)@,
            decreases targets.len() - i,
        {
            let t: u64 = targets[i];
            if t != 0 && !self.targets.contains(t) {
                if self.targets.len() >= MAX_TARGETS {
                    proof {
                        assert(with_targets(was.targets, targets@, now, (i + 1) as nat).1);
                        lemma_targets_end(was.targets, targets@, now, (i + 1) as nat, targets@.len());
                    }
                    return ;
                }
                let ghost before = self@;
                let _ = self.targets.insert(t, TargetHealth { health: None, last_update: now });
                assert(self@.spawns =~= before.spawns);
            }
            i += 1;
        }
    }

    /// The health of a target, where it is known.
    pub fn target_health(&self, target: u64) -> (r: Option<i32>)
        requires
            self.wf(),
        ensures
            r == health_of(self@.targets, target),
    {
        match self.targets.get(target) {
            Some(t) => t.health,
            None => None,
        }
    }

    /// The spawns of a region that are told of, oldest first.
    pub fn spawns(&self, region: u32, now_unix_ms: i64) -> (r: Vec<SpawnEntry>)
        requires
            self.wf(),
        ensures
            r@ == log_of(self@.spawns, region).filter(is_recent(now_unix_ms)),
    {
        match self.spawns.get(region as u64) {
            Some(log) => recent_of(log.as_slice(), now_unix_ms),
            None => {
                let none: Vec<SpawnEntry> = Vec::new();
                proof {
                    reveal(Seq::filter);
                    assert(none@ =~= Seq::<SpawnEntry>::empty().filter(is_recent(now_unix_ms)));
                }
                none
            },
        }
    }

    /// Counts of what the hub holds: sessions, targets, and for each region with
    /// a log the spawns that are told of.
    pub fn stats(&self, now_unix_ms: i64) -> (r: BitmeStats)
        requires
            self.wf(),
        ensures
            r.sessions == self@.sessions.dom().len(),
            r.tracked_targets == self@.targets.dom().len(),
            r.spawns@.map_values(|e: (u64, usize)| e.0).no_duplicates(),
            r.spawns@.map_values(|e: (u64, usize)| e.0).to_set() == self@.spawns.dom(),
            forall|i: int|
                0 <= i < r.spawns@.len() ==> (#[trigger] r.spawns@[i]).1 == self@.spawns[r.spawns@[i].0].filter(
                    is_recent(now_unix_ms),
                ).len(),
    {
        let mut spawns: Vec<(u64, usize)> = Vec::new();
        let n: usize = self.spawns.len();
        let mut i: usize = 0;
        while i < n
            invariant
                self.wf(),
                n == self.spawns.ids().len(),
                i <= n,
                spawns@.len() == i,
                forall|k: int|
                    0 <= k < i ==> (#[trigger] spawns@[k]).0 == self.spawns.ids()[k] && spawns@[k].1
                        == self@.spawns[spawns@[k].0].filter(is_recent(now_unix_ms)).len(),
            decreases n - i,
        {
            let region: u64 = self.spawns.id_at(i);
            let recent = recent_of(self.spawns.value_at(i).as_slice(), now_unix_ms);
            spawns.push((region, recent.len()));
            i += 1;
        }
        proof {
            self.spawns.lemma_ids();
            assert(spawns@.map_values(|e: (u64, usize)| e.0) =~= self.spawns.ids());
            assert(self@.spawns.dom() =~= self.spawns@.dom());
        }
        BitmeStats { sessions: self.sessions.len(), tracked_targets: self.targets.len(), spawns }
    }

    /// Forgets the spawns of a region.
    pub fn clear_region(&mut self, region: u32)
        requires
            old(self).wf(),
        ensures
            final(self).wf(),
            final(self)@ == (HubState { spawns: old(self)@.spawns.remove(region as u64), ..old(self)@ }),
    {
        let _ = self.spawns.remove(region as u64);
        assert(self@.spawns =~= old(self)@.spawns.remove(region as u64));
    }
}

/// What a list holds after one more entry, or the same.
proof fn lemma_pushed(before: Seq<u64>, after: Seq<u64>, id: u64)
    requires
        after == before || after == before.push(id),
    ensures
        forall|k: u64| before.contains(k) ==> #[trigger] after.contains(k),
        forall|k: u64| #[trigger] after.contains(k) ==> before.contains(k) || (k == id && after == before.push(id)),
        after == before.push(id) ==> after.contains(id),
{
    if after == before.push(id) {
        assert(after[before.len() as int] == id);
        assert forall|k: u64| before.contains(k) implies #[trigger] after.contains(k) by {
            let i = choose|i: int| 0 <= i < before.len() && before[i] == k;
            assert(after[i] == k);
        }
        assert forall|k: u64| #[trigger] after.contains(k) implies before.contains(k) || k == id by {
            let i = choose|i: int| 0 <= i < after.len() && after[i] == k;
            if i < before.len() {
                assert(before[i] == k);
            }
        }
    }
}

/// The first target without room ends the list.
proof fn lemma_targets_end(m: Map<u64, TargetHealth>, list: Seq<u64>, now: u64, a: nat, b: nat)
    requires
        a <= b,
        with_targets(m, list, now, a).1,
    ensures
        with_targets(m, list, now, b) == with_targets(m, list, now, a),
    decreases b,
{
    if a < b {
        lemma_targets_end(m, list, now, a, (b - 1) as nat);
    }
}

/// The spawns that are told of.
fn recent_of(log: &[SpawnEntry], now: i64) -> (r: Vec<SpawnEntry>)
    ensures
        r@ == log@.filter(is_recent(now)),
{
    let ghost f = is_recent(now);
    let mut out: Vec<SpawnEntry> = Vec::new();
    let mut i: usize = 0;
    proof {
        reveal(Seq::filter);
        assert(log@.take(0).filter(f) =~= Seq::<SpawnEntry>::empty());
    }
    while i < log.len()
        invariant
            i <= log@.len(),
            f == is_recent(now),
            out@ == log@.take(i as int).filter(f),
        decreases log.len() - i,
    {
        proof {
            reveal(Seq::filter);
            assert(log@.take(i + 1).drop_last() =~= log@.take(i as int));
        }
        if log[i].at_unix_ms as i128 >= now as i128 - SPAWN_TTL_MS as i128 {
            out.push(log[i]);
        }
        i += 1;
    }
    assert(log@.take(i as int) =~= log@);
    out
}

/// The spawns of other entities.
fn others_of(log: &[SpawnEntry], e: u64) -> (r: Vec<SpawnEntry>)
    ensures
        r@ == log@.filter(is_other(e)),
{
    let ghost f = is_other(e);
    let mut out: Vec<SpawnEntry> = Vec::new();
    let mut i: usize = 0;
    proof {
        reveal(Seq::filter);
        assert(log@.take(0).filter(f) =~= Seq::<SpawnEntry>::empty());
    }
    while i < log.len()
        invariant
            i <= log@.len(),
            f == is_other(e),
            out@ == log@.take(i as int).filter(f),
        decreases log.len() - i,
    {
        proof {
            reveal(Seq::filter);
            assert(log@.take(i + 1).drop_last() =~= log@.take(i as int));
        }
        if log[i].entity_id != e {
            out.push(log[i]);
        }
        i += 1;
    }
    assert(log@.take(i as int) =~= log@);
    out
}

/// When rows were applied: by the steady clock and by the wall clock.
#[derive(Debug, Clone, Copy, PartialEq, Eq, Structural)]
pub struct Moment {
    pub steady_ms: u64,
    pub unix_ms: i64,
}

impl HubState {
    /// The hub after the first `n` rows of health went.
    pub open spec fn health_gone(self, meta: BitmeRegionMeta, rows: Seq<RowInput>, at: Moment, n: nat) -> HubState
        decreases n,
    {
        if n == 0 {
            self
        } else {
            let before = self.health_gone(meta, rows, at, (n - 1) as nat);
            match health_row(meta, rows[n - 1]) {
                Some(r) => HubState {
                    targets: health_heard(before.targets, r.0, None, at.steady_ms),
                    ..before
                },
                None => before,
            }
        }
    }

    /// The hub after the first `n` rows of health came.
    pub open spec fn health_came(self, meta: BitmeRegionMeta, rows: Seq<RowInput>, at: Moment, n: nat) -> HubState
        decreases n,
    {
        if n == 0 {
            self
        } else {
            let before = self.health_came(meta, rows, at, (n - 1) as nat);
            match health_row(meta, rows[n - 1]) {
                Some(r) => HubState {
                    targets: health_heard(before.targets, r.0, Some(r.1), at.steady_ms),
                    ..before
                },
                None => before,
            }
        }
    }

    /// The hub after a resource went.
    pub open spec fn resource_gone(self, region: u32, e: u64, at: Moment) -> HubState {
        HubState {
            spawns: self.spawns.insert(region as u64, log_of(self.spawns, region).filter(is_other(e))),
            targets: health_heard(self.targets, e, None, at.steady_ms),
            ..self
        }
    }

    /// The hub after a resource came up.
    pub open spec fn resource_came(self, region: u32, watched: Map<u64, ()>, r: ResourceRow, at: Moment) -> HubState {
        if watched.dom().contains(key32(r.resource_id as int)) {
            HubState {
                spawns: self.spawns.insert(
                    region as u64,
                    with_spawn(
                        log_of(self.spawns, region),
                        SpawnEntry { entity_id: r.entity_id, resource_id: r.resource_id, at_unix_ms: at.unix_ms },
                    ),
                ),
                ..self
            }
        } else {
            self
        }
    }

    /// The hub with a log for a region.
    pub open spec fn logging(self, region: u32) -> HubState {
        HubState { spawns: self.spawns.insert(region as u64, log_of(self.spawns, region)), ..self }
    }

    /// The hub after the first `n` resources went; rows that cannot be read are
    /// passed over.
    pub open spec fn resources_gone(
        self,
        meta: BitmeRegionMeta,
        region: u32,
        rows: Seq<RowInput>,
        read: Seq<ResourceRow>,
        at: Moment,
        n: nat,
    ) -> HubState
        decreases n,
    {
        if n == 0 {
            self
        } else {
            let before = self.resources_gone(meta, region, rows, read, at, (n - 1) as nat);
            if is_resource_row(meta, rows[n - 1]) {
                before.resource_gone(region, read[n - 1].entity_id, at)
            } else {
                before
            }
        }
    }

    /// The hub after the first `n` resources came up; rows that cannot be read
    /// are passed over.
    pub open spec fn resources_came(
        self,
        meta: BitmeRegionMeta,
        region: u32,
        watched: Map<u64, ()>,
        rows: Seq<RowInput>,
        read: Seq<ResourceRow>,
        at: Moment,
        n: nat,
    ) -> HubState
        decreases n,
    {
        if n == 0 {
            self
        } else {
            let before = self.resources_came(meta, region, watched, rows, read, at, (n - 1) as nat);
            if is_resource_row(meta, rows[n - 1]) {
                before.resource_came(region, watched, read[n - 1], at)
            } else {
                before
            }
        }
    }
}

/// Whether some rows are what their inputs say, as far as these can be read.
pub open spec fn read_rows(meta: BitmeRegionMeta, rows: Seq<RowInput>, read: Seq<ResourceRow>) -> bool {
    &&& read.len() == rows.len()
    &&& forall|i: int|
        0 <= i < rows.len() && is_resource_row(meta, #[trigger] rows[i]) ==> reads_resource(meta, rows[i], read[i])
}

/// What a resource row says, where it can be read.
fn decode_resource(meta: &BitmeRegionMeta, input: &RowInput) -> (r: Option<ResourceRow>)
    requires
        input.cells matches Some(c) ==> meta.resource_cols.fit(c@.len()),
    ensures
        match r {
            Some(row) => is_resource_row(*meta, *input) && reads_resource(*meta, *input, row),
            None => !is_resource_row(*meta, *input),
        },
{
    if let Some(fast) = &meta.resource_fast {
        if let Some(row) = fast.decode(input.bytes.as_slice()) {
            return Some(row);
        }
    }
    match &input.cells {
        None => None,
        Some(c) => match decode_resource_with_fields(c.as_slice(), meta.resource_cols) {
            Ok(r) => Some(r),
            Err(_) => None,
        },
    }
}

/// What a row says of the health of a resource, where it can be read.
fn decode_health(meta: &BitmeRegionMeta, input: &RowInput) -> (r: Option<(u64, i32)>)
    requires
        input.cells matches Some(c) ==> meta.resource_health_cols.fit(c@.len()),
    ensures
        r == health_row(*meta, *input),
{
    match &input.cells {
        None => None,
        Some(c) => match decode_resource_health_with_fields(c.as_slice(), meta.resource_health_cols) {
            Ok(r) => Some((r.entity_id, r.health)),
            Err(_) => None,
        },
    }
}

impl BitmeHub {
    /// Something was heard of the health of a resource.
    fn hear(&mut self, e: u64, health: Option<i32>, now: u64)
        requires
            old(self).wf(),
        ensures
            final(self).wf(),
            final(self)@ == (HubState {
                targets: health_heard(old(self)@.targets, e, health, now),
                ..old(self)@
            }),
    {
        if self.targets.contains(e) {
            let _ = self.targets.insert(e, TargetHealth { health, last_update: now });
        }
        assert(self@.spawns =~= old(self)@.spawns);
        assert(self@ =~= (HubState { targets: health_heard(old(self)@.targets, e, health, now), ..old(self)@ }));
    }

    /// A copy of the log of a region.
    fn log(&self, region: u32) -> (r: Vec<SpawnEntry>)
        requires
            self.wf(),
        ensures
            r@ == log_of(self@.spawns, region),
    {
        let mut out: Vec<SpawnEntry> = Vec::new();
        if let Some(log) = self.spawns.get(region as u64) {
            let mut i: usize = 0;
            while i < log.len()
                invariant
                    i <= log@.len(),
                    out@ == log@.take(i as int),
                decreases log.len() - i,
            {
                out.push(log[i]);
                assert(out@ =~= log@.take(i + 1));
                i += 1;
            }
            assert(log@.take(i as int) =~= log@);
        }
        out
    }

    /// Replaces the log of a region.
    fn put_log(&mut self, region: u32, log: Vec<SpawnEntry>)
        requires
            old(self).wf(),
        ensures
            final(self).wf(),
            final(self)@ == (HubState { spawns: old(self)@.spawns.insert(region as u64, log@), ..old(self)@ }),
    {
        let _ = self.spawns.insert(region as u64, log);
        assert(self@.spawns =~= old(self)@.spawns.insert(region as u64, log@));
    }

    /// Rows of the health table went and came.
    pub fn observe_health(&mut self, meta: &BitmeRegionMeta, deletes: &[RowInput], inserts: &[RowInput], at: Moment)
        requires
            old(self).wf(),
            forall|i: int|
                0 <= i < deletes@.len() ==> live_fits(*meta, RESOURCE_HEALTH_TABLE@, #[trigger] deletes@[i]),
            forall|i: int|
                0 <= i < inserts@.len() ==> live_fits(*meta, RESOURCE_HEALTH_TABLE@, #[trigger] inserts@[i]),
        ensures
            final(self).wf(),
            final(self)@ == old(self)@.health_gone(*meta, deletes@, at, deletes@.len()).health_came(
                *meta,
                inserts@,
                at,
                inserts@.len(),
            ),
    {
        let mut i: usize = 0;
        while i < deletes.len()
            invariant
                self.wf(),
                i <= deletes@.len(),
                self@ == old(self)@.health_gone(*meta, deletes@, at, i as nat),
                forall|i: int|
                    0 <= i < deletes@.len() ==> live_fits(*meta, RESOURCE_HEALTH_TABLE@, #[trigger] deletes@[i]),
            decreases deletes.len() - i,
        {
            if let Some((e, _)) = decode_health(meta, &deletes[i]) {
                self.hear(e, None, at.steady_ms);
            }
            i += 1;
        }
        let ghost middle = self@;
        let mut j: usize = 0;
        while j < inserts.len()
            invariant
                self.wf(),
                j <= inserts@.len(),
                self@ == middle.health_came(*meta, inserts@, at, j as nat),
                forall|i: int|
                    0 <= i < inserts@.len() ==> live_fits(*meta, RESOURCE_HEALTH_TABLE@, #[trigger] inserts@[i]),
            decreases inserts.len() - j,
        {
            if let Some((e, health)) = decode_health(meta, &inserts[j]) {
                self.hear(e, Some(health), at.steady_ms);
            }
            j += 1;
        }
    }

    /// A resource went: it is no spawn any more, and its health is not known.
    fn lose_resource(&mut self, region: u32, e: u64, at: Moment)
        requires
            old(self).wf(),
        ensures
            final(self).wf(),
            final(self)@ == old(self)@.resource_gone(region, e, at),
    {
        let log = self.log(region);
        let left = others_of(log.as_slice(), e);
        self.put_log(region, left);
        self.hear(e, None, at.steady_ms);
        assert(self@ =~= old(self)@.resource_gone(region, e, at));
    }

    /// A resource came up: it is a spawn if its kind is watched.
    fn gain_resource(&mut self, region: u32, watched: &IdTable<()>, r: &ResourceRow, at: Moment)
        requires
            old(self).wf(),
            watched.wf(),
        ensures
            final(self).wf(),
            final(self)@ == old(self)@.resource_came(region, watched@, *r, at),
    {
        if !watched.contains(key_of_i32(r.resource_id)) {
            return ;
        }
        let log = self.log(region);
        let mut recent = recent_of(log.as_slice(), at.unix_ms);
        let ghost kept = recent@;
        if recent.len() >= SPAWN_CAP {
            let _ = recent.remove(0);
            assert(recent@ =~= kept.drop_first());
        }
        recent.push(SpawnEntry { entity_id: r.entity_id, resource_id: r.resource_id, at_unix_ms: at.unix_ms });
        self.put_log(region, recent);
        assert(self@ =~= old(self)@.resource_came(region, watched@, *r, at));
    }

    /// Rows of the resource table went and came.
    pub fn observe_resources(
        &mut self,
        region: u32,
        meta: &BitmeRegionMeta,
        watched: &IdTable<()>,
        deletes: &[RowInput],
        inserts: &[RowInput],
        at: Moment,
    )
        requires
            old(self).wf(),
            watched.wf(),
            forall|i: int|
                0 <= i < deletes@.len() ==> ((#[trigger] deletes@[i]).cells matches Some(c) ==> meta.resource_cols.fit(
                    c@.len(),
                )),
            forall|i: int|
                0 <= i < inserts@.len() ==> ((#[trigger] inserts@[i]).cells matches Some(c) ==> meta.resource_cols.fit(
                    c@.len(),
                )),
        ensures
            final(self).wf(),
            exists|gone: Seq<ResourceRow>, came: Seq<ResourceRow>|
                #![trigger read_rows(*meta, deletes@, gone), read_rows(*meta, inserts@, came)]
                {
                    &&& read_rows(*meta, deletes@, gone)
                    &&& read_rows(*meta, inserts@, came)
                    &&& final(self)@ == old(self)@.logging(region).resources_gone(
                        *meta,
                        region,
                        deletes@,
                        gone,
                        at,
                        deletes@.len(),
                    ).resources_came(*meta, region, watched@, inserts@, came, at, inserts@.len())
                },
    {
        let log = self.log(region);
        self.put_log(region, log);
        let ghost start = self@;
        let ghost blank = ResourceRow { entity_id: 0, resource_id: 0, direction_index: 0 };
        let ghost mut gone: Seq<ResourceRow> = Seq::new(deletes@.len(), |i: int| blank);
        assert(start == old(self)@.logging(region));
        let mut i: usize = 0;
        while i < deletes.len()
            invariant
                self.wf(),
                i <= deletes@.len() == gone.len(),
                forall|j: int|
                    0 <= j < i && is_resource_row(*meta, #[trigger] deletes@[j]) ==> reads_resource(
                        *meta,
                        deletes@[j],
                        gone[j],
                    ),
                self@ == start.resources_gone(*meta, region, deletes@, gone, at, i as nat),
                forall|i: int|
                    0 <= i < deletes@.len() ==> ((#[trigger] deletes@[i]).cells matches Some(c)
                        ==> meta.resource_cols.fit(c@.len())),
            decreases deletes.len() - i,
        {
            if let Some(r) = decode_resource(meta, &deletes[i]) {
                self.lose_resource(region, r.entity_id, at);
                proof {
                    let more = gone.update(i as int, r);
                    lemma_gone_same(start, *meta, region, deletes@, gone, more, at, i as nat);
                    gone = more;
                }
            }
            i += 1;
        }
        let ghost middle = self@;
        let ghost mut came: Seq<ResourceRow> = Seq::new(inserts@.len(), |i: int| blank);
        let mut j: usize = 0;
        while j < inserts.len()
            invariant
                self.wf(),
                watched.wf(),
                j <= inserts@.len() == came.len(),
                forall|k: int|
                    0 <= k < j && is_resource_row(*meta, #[trigger] inserts@[k]) ==> reads_resource(
                        *meta,
                        inserts@[k],
                        came[k],
                    ),
                self@ == middle.resources_came(*meta, region, watched@, inserts@, came, at, j as nat),
                forall|i: int|
                    0 <= i < inserts@.len() ==> ((#[trigger] inserts@[i]).cells matches Some(c)
                        ==> meta.resource_cols.fit(c@.len())),
            decreases inserts.len() - j,
        {
            if let Some(r) = decode_resource(meta, &inserts[j]) {
                self.gain_resource(region, watched, &r, at);
                proof {
                    let more = came.update(j as int, r);
                    lemma_came_same(middle, *meta, region, watched@, inserts@, came, more, at, j as nat);
                    came = more;
                }
            }
            j += 1;
        }
        assert(read_rows(*meta, deletes@, gone));
        assert(read_rows(*meta, inserts@, came));
    }
}

/// Only the rows up to the `n`th matter.
proof fn lemma_gone_same(
    s: HubState,
    meta: BitmeRegionMeta,
    region: u32,
    rows: Seq<RowInput>,
    a: Seq<ResourceRow>,
    b: Seq<ResourceRow>,
    at: Moment,
    n: nat,
)
    requires
        forall|i: int| 0 <= i < n ==> a[i] == b[i],
    ensures
        s.resources_gone(meta, region, rows, a, at, n) == s.resources_gone(meta, region, rows, b, at, n),
    decreases n,
{
    if n > 0 {
        lemma_gone_same(s, meta, region, rows, a, b, at, (n - 1) as nat);
    }
}

/// Only the rows up to the `n`th matter.
proof fn lemma_came_same(
    s: HubState,
    meta: BitmeRegionMeta,
    region: u32,
    watched: Map<u64, ()>,
    rows: Seq<RowInput>,
    a: Seq<ResourceRow>,
    b: Seq<ResourceRow>,
    at: Moment,
    n: nat,
)
    requires
        forall|i: int| 0 <= i < n ==> a[i] == b[i],
    ensures
        s.resources_came(meta, region, watched, rows, a, at, n) == s.resources_came(
            meta,
            region,
            watched,
            rows,
            b,
            at,
            n,
        ),
    decreases n,
{
    if n > 0 {
        lemma_came_same(s, meta, region, watched, rows, a, b, at, (n - 1) as nat);
    }
}

impl BitmeHub {
    /// What live rows of a region say of health and of spawns. Rows that cannot
    /// be read are passed over.
    pub fn observe_live(
        &mut self,
        region: u32,
        tables: &[LiveTable],
        meta: &BitmeRegionMeta,
        watched: &IdTable<()>,
        at: Moment,
    )
        requires
            old(self).wf(),
            watched.wf(),
            forall|t: int, i: int|
                0 <= t < tables@.len() && 0 <= i < tables@[t].deletes@.len() ==> live_fits(
                    *meta,
                    tables@[t].name@,
                    #[trigger] tables@[t].deletes@[i],
                ),
            forall|t: int, i: int|
                0 <= t < tables@.len() && 0 <= i < tables@[t].inserts@.len() ==> live_fits(
                    *meta,
                    tables@[t].name@,
                    #[trigger] tables@[t].inserts@[i],
                ),
        ensures
            final(self).wf(),
            exists|states: Seq<HubState>| #[trigger]
                observed(states, region, tables@, *meta, watched@, at, tables@.len()) && states[0] == old(self)@
                    && states.last() == final(self)@,
    {
        let ghost mut states: Seq<HubState> = seq![self@];
        let mut t: usize = 0;
        while t < tables.len()
            invariant
                self.wf(),
                watched.wf(),
                t <= tables@.len(),
                observed(states, region, tables@, *meta, watched@, at, t as nat),
                states[0] == old(self)@,
                states.last() == self@,
                forall|t: int, i: int|
                    0 <= t < tables@.len() && 0 <= i < tables@[t].deletes@.len() ==> live_fits(
                        *meta,
                        tables@[t].name@,
                        #[trigger] tables@[t].deletes@[i],
                    ),
                forall|t: int, i: int|
                    0 <= t < tables@.len() && 0 <= i < tables@[t].inserts@.len() ==> live_fits(
                        *meta,
                        tables@[t].name@,
                        #[trigger] tables@[t].inserts@[i],
                    ),
            decreases tables.len() - t,
        {
            let table = &tables[t];
            let ghost before = self@;
            if same_text(table.name.as_str(), RESOURCE_HEALTH_TABLE) {
                self.observe_health(meta, table.deletes.as_slice(), table.inserts.as_slice(), at);
            } else if same_text(table.name.as_str(), RESOURCE_TABLE) {
                self.observe_resources(
                    region,
                    meta,
                    watched,
                    table.deletes.as_slice(),
                    table.inserts.as_slice(),
                    at,
                );
            }
            proof {
                assert(observed_one(before, self@, region, tables@[t as int], *meta, watched@, at));
                let more = states.push(self@);
                assert forall|k: int| 0 <= k < t + 1 implies observed_one(
                    #[trigger] more[k],
                    more[k + 1],
                    region,
                    tables@[k],
                    *meta,
                    watched@,
                    at,
                ) by {
                    if k < t {
                        assert(observed_one(states[k], states[k + 1], region, tables@[k], *meta, watched@, at));
                    }
                }
                states = more;
            }
            t += 1;
        }
    }
}

/// What rows of one table do to the hub.
pub open spec fn observed_one(
    before: HubState,
    after: HubState,
    region: u32,
    table: LiveTable,
    meta: BitmeRegionMeta,
    watched: Map<u64, ()>,
    at: Moment,
) -> bool {
    if table.name@ == RESOURCE_HEALTH_TABLE@ {
        after == before.health_gone(meta, table.deletes@, at, table.deletes@.len()).health_came(
            meta,
            table.inserts@,
            at,
            table.inserts@.len(),
        )
    } else if table.name@ == RESOURCE_TABLE@ {
        exists|gone: Seq<ResourceRow>, came: Seq<ResourceRow>|
            #![trigger read_rows(meta, table.deletes@, gone), read_rows(meta, table.inserts@, came)]
            {
                &&& read_rows(meta, table.deletes@, gone)
                &&& read_rows(meta, table.inserts@, came)
                &&& after == before.logging(region).resources_gone(
                    meta,
                    region,
                    table.deletes@,
                    gone,
                    at,
                    table.deletes@.len(),
                ).resources_came(meta, region, watched, table.inserts@, came, at, table.inserts@.len())
            }
    } else {
        after == before
    }
}

/// What the rows of some tables do to the hub, one table after the other, with
/// the states in between.
pub open spec fn observed(
    states: Seq<HubState>,
    region: u32,
    tables: Seq<LiveTable>,
    meta: BitmeRegionMeta,
    watched: Map<u64, ()>,
    at: Moment,
    n: nat,
) -> bool {
    &&& states.len() == n + 1
    &&& forall|t: int|
        0 <= t < n ==> observed_one(#[trigger] states[t], states[t + 1], region, tables[t], meta, watched, at)
}

/// The log of a region never grows beyond its bound, and a resource that went
/// is not in it.
pub proof fn law_spawn_log_is_bounded(log: Seq<SpawnEntry>, s: SpawnEntry)
    requires
        log.len() <= SPAWN_CAP,
    ensures
        with_spawn(log, s).len() <= SPAWN_CAP,
        with_spawn(log, s).last() == s,
{
    lemma_filter_len(log, is_recent(s.at_unix_ms));
}

/// A filter does not make a list longer.
proof fn lemma_filter_len(s: Seq<SpawnEntry>, f: spec_fn(SpawnEntry) -> bool)
    ensures
        s.filter(f).len() <= s.len(),
    decreases s.len(),
{
    reveal(Seq::filter);
    if s.len() > 0 {
        lemma_filter_len(s.drop_last(), f);
    }
}

/// Only targets have a health: what is heard of anything else is not kept.
pub proof fn law_health_is_kept_for_targets(m: Map<u64, TargetHealth>, e: u64, health: Option<i32>, now: u64)
    ensures
        health_heard(m, e, health, now).dom() =~= m.dom(),
        m.dom().contains(e) ==> health_heard(m, e, health, now)[e].health == health,
{
}

/// The health that the last of the first `n` rows of an entity tells, where one
/// can be read.
pub open spec fn last_health(meta: BitmeRegionMeta, rows: Seq<RowInput>, e: u64, n: nat) -> Option<i32>
    decreases n,
{
    if n == 0 {
        None
    } else {
        match health_row(meta, rows[n - 1]) {
            Some(r) if r.0 == e => Some(r.1),
            _ => last_health(meta, rows, e, (n - 1) as nat),
        }
    }
}

/// The health of an entity, where it is a target and its health is known.
pub open spec fn health_of(m: Map<u64, TargetHealth>, e: u64) -> Option<i32> {
    match known(m, e) {
        Some(t) => t.health,
        None => None,
    }
}

/// What rows of health that went leave of an entity.
proof fn lemma_health_gone(s: HubState, meta: BitmeRegionMeta, rows: Seq<RowInput>, at: Moment, e: u64, n: nat)
    ensures
        ({
            let after = s.health_gone(meta, rows, at, n);
            &&& after.spawns == s.spawns && after.sessions == s.sessions
            &&& after.targets.dom() == s.targets.dom()
            &&& health_of(after.targets, e) == if last_health(meta, rows, e, n) is Some {
                None
            } else {
                health_of(s.targets, e)
            }
        }),
    decreases n,
{
    if n > 0 {
        lemma_health_gone(s, meta, rows, at, e, (n - 1) as nat);
        assert(s.health_gone(meta, rows, at, n).targets.dom() =~= s.targets.dom());
    }
}

/// What rows of health that came make of an entity.
proof fn lemma_health_came(s: HubState, meta: BitmeRegionMeta, rows: Seq<RowInput>, at: Moment, e: u64, n: nat)
    ensures
        ({
            let after = s.health_came(meta, rows, at, n);
            &&& after.spawns == s.spawns && after.sessions == s.sessions
            &&& after.targets.dom() == s.targets.dom()
            &&& health_of(after.targets, e) == match last_health(meta, rows, e, n) {
                Some(h) if s.targets.dom().contains(e) => Some(h),
                _ => health_of(s.targets, e),
            }
        }),
    decreases n,
{
    if n > 0 {
        lemma_health_came(s, meta, rows, at, e, (n - 1) as nat);
        assert(s.health_came(meta, rows, at, n).targets.dom() =~= s.targets.dom());
    }
}

/// What an update that holds the health table alone makes of the health of an
/// entity. A target has the health of the last row that came for it; where rows
/// of it only went, none; where no row tells of it, the health that it had. Of
/// what is no target nothing is kept. Rows that cannot be read count for
/// nothing, and spawns and sessions stay.
pub proof fn law_health_follows_the_last_row(
    before: HubState,
    after: HubState,
    states: Seq<HubState>,
    region: u32,
    table: LiveTable,
    meta: BitmeRegionMeta,
    watched: Map<u64, ()>,
    at: Moment,
    e: u64,
)
    requires
        table.name@ == RESOURCE_HEALTH_TABLE@,
        observed(states, region, seq![table], meta, watched, at, 1),
        states[0] == before,
        states.last() == after,
    ensures
        after.spawns == before.spawns,
        after.sessions == before.sessions,
        after.targets.dom() == before.targets.dom(),
        !before.targets.dom().contains(e) ==> health_of(after.targets, e) is None,
        before.targets.dom().contains(e) ==> health_of(after.targets, e) == match (
            last_health(meta, table.inserts@, e, table.inserts@.len()),
            last_health(meta, table.deletes@, e, table.deletes@.len()),
        ) {
            (Some(h), _) => Some(h),
            (None, Some(_)) => None,
            (None, None) => health_of(before.targets, e),
        },
{
    assert(observed_one(states[0], states[1], region, seq![table][0], meta, watched, at));
    let middle = before.health_gone(meta, table.deletes@, at, table.deletes@.len());
    lemma_health_gone(before, meta, table.deletes@, at, e, table.deletes@.len());
    lemma_health_came(middle, meta, table.inserts@, at, e, table.inserts@.len());
}

/// The number of targets never grows beyond its bound.
pub proof fn law_targets_are_bounded(m: Map<u64, TargetHealth>, list: Seq<u64>, now: u64, n: nat)
    requires
        m.dom().finite(),
        m.dom().len() <= MAX_TARGETS,
        n <= list.len(),
    ensures
        with_targets(m, list, now, n).0.dom().finite(),
        with_targets(m, list, now, n).0.dom().len() <= MAX_TARGETS,
    decreases n,
{
    if n > 0 {
        law_targets_are_bounded(m, list, now, (n - 1) as nat);
    }
}

/// What a filtered log has.
proof fn lemma_filter_keeps(s: Seq<SpawnEntry>, f: spec_fn(SpawnEntry) -> bool, x: SpawnEntry)
    ensures
        s.filter(f).contains(x) <==> s.contains(x) && f(x),
{
    if s.contains(x) && f(x) {
        let i = choose|i: int| 0 <= i < s.len() && s[i] == x;
        s.lemma_filter_contains(f, i);
    }
    if s.filter(f).contains(x) {
        let i = choose|i: int| 0 <= i < s.filter(f).len() && s.filter(f)[i] == x;
        s.lemma_filter_pred(f, i);
        s.lemma_filter_contains_rev(f, x);
    }
}

/// A resource of a type that is watched for is the last of the log of its region
/// when it came up, with its type and the time. One of another type leaves the
/// log. What came up within the half hour before stays, as long as there is
/// room for it; what is older goes. Other regions are not touched, nor are
/// sessions and targets.
pub proof fn law_spawns_are_logged(
    h: HubState,
    region: u32,
    watched: Map<u64, ()>,
    r: ResourceRow,
    at: Moment,
    other: u32,
    e: SpawnEntry,
)
    ensures
        ({
            let after = h.resource_came(region, watched, r, at);
            let log = log_of(after.spawns, region);
            let before = log_of(h.spawns, region);
            &&& after.sessions == h.sessions && after.targets == h.targets
            &&& other != region ==> log_of(after.spawns, other) == log_of(h.spawns, other)
            &&& !watched.dom().contains(key32(r.resource_id as int)) ==> log == before
            &&& watched.dom().contains(key32(r.resource_id as int)) ==> {
                &&& log.len() > 0 && log.last().entity_id == r.entity_id && log.last().resource_id == r.resource_id
                    && log.last().at_unix_ms == at.unix_ms
                &&& log.contains(e) && e != log.last() ==> before.contains(e) && e.at_unix_ms >= at.unix_ms - 1_800_000
                &&& before.len() < 512 && before.contains(e) && e.at_unix_ms >= at.unix_ms - 1_800_000 ==> log.contains(e)
            }
        }),
{
    let before = log_of(h.spawns, region);
    let f = is_recent(at.unix_ms);
    let recent = before.filter(f);
    lemma_filter_keeps(before, f, e);
    lemma_filter_len(before, f);
    let s = SpawnEntry { entity_id: r.entity_id, resource_id: r.resource_id, at_unix_ms: at.unix_ms };
    let more = recent.push(s);
    if recent.contains(e) {
        let k = choose|k: int| 0 <= k < recent.len() && recent[k] == e;
        assert(more[k] == e);
    }
    let log = with_spawn(before, s);
    if log.contains(e) && e != s {
        let k = choose|k: int| 0 <= k < log.len() && log[k] == e;
        if recent.len() >= SPAWN_CAP {
            assert(recent[k + 1] == e);
        } else {
            assert(recent[k] == e);
        }
    }
}

/// A resource that went is in the log of its region no more; all others stay.
/// A target that went has no health.
pub proof fn law_spawns_that_went_are_not_told(h: HubState, region: u32, e: u64, at: Moment, other: u32, s: SpawnEntry)
    ensures
        ({
            let after = h.resource_gone(region, e, at);
            &&& log_of(after.spawns, region).contains(s) <==> log_of(h.spawns, region).contains(s) && s.entity_id != e
            &&& other != region ==> log_of(after.spawns, other) == log_of(h.spawns, other)
            &&& health_of(after.targets, e) is None
            &&& forall|x: u64| x != e ==> #[trigger] health_of(after.targets, x) == health_of(h.targets, x)
            &&& after.targets.dom() == h.targets.dom()
            &&& after.sessions == h.sessions
        }),
{
    lemma_filter_keeps(log_of(h.spawns, region), is_other(e), s);
    assert(h.resource_gone(region, e, at).targets.dom() =~= h.targets.dom());
}

/// A session is open for a quarter of an hour after it was seen, and a target is
/// kept for half an hour after something was heard of it.
pub proof fn law_sessions_and_targets_end(
    sessions: Map<u64, u64>,
    targets: Map<u64, TargetHealth>,
    now: u64,
    k: u64,
)
    ensures
        open_sessions(sessions, now).dom().contains(k) <==> sessions.dom().contains(k) && now < sessions[k] + 900_000,
        open_sessions(sessions, now).dom().contains(k) ==> open_sessions(sessions, now)[k] == sessions[k],
        fresh_targets(targets, now).dom().contains(k) <==> targets.dom().contains(k) && now < targets[k].last_update
            + 1_800_000,
        fresh_targets(targets, now).dom().contains(k) ==> fresh_targets(targets, now)[k] == targets[k],
{
}

/// A session that was seen is open as of now; no other is opened by it.
pub proof fn law_a_session_that_was_seen_is_open(h: HubState, player: u64, now: u64, after: HubState, k: u64)
    requires
        ({
            let room = h.making_room(player, now);
            if room.sessions.dom().len() >= MAX_SESSIONS {
                exists|oldest: u64| room.is_opened_for(player, now, oldest, after)
            } else {
                after == room.opened(player, now)
            }
        }),
    ensures
        after.sessions.dom().contains(player) && after.sessions[player] == now,
        k != player && after.sessions.dom().contains(k) ==> h.sessions.dom().contains(k) && after.sessions[k]
            == h.sessions[k],
        h.sessions.dom().len() < 8192 && k != player ==> (after.sessions.dom().contains(k) <==> h.sessions.dom().contains(
            k,
        )),
        after.spawns == h.spawns,
{
}

/// Every target that was named is kept, as long as there is room for all of
/// them, and those that were kept stay with what is known of them.
pub proof fn law_named_targets_are_kept(m: Map<u64, TargetHealth>, list: Seq<u64>, now: u64, n: nat, i: int, k: u64)
    requires
        n <= list.len(),
        m.dom().finite(),
        m.dom().len() + n <= 8192,
    ensures
        !with_targets(m, list, now, n).1,
        with_targets(m, list, now, n).0.dom().finite(),
        with_targets(m, list, now, n).0.dom().len() <= m.dom().len() + n,
        0 <= i < n && list[i] != 0 ==> with_targets(m, list, now, n).0.dom().contains(list[i]),
        m.dom().contains(k) ==> known(with_targets(m, list, now, n).0, k) == Some(m[k]),
        !m.dom().contains(k) && with_targets(m, list, now, n).0.dom().contains(k) ==> k != 0 && list.take(n as int).contains(
            k,
        ) && health_of(with_targets(m, list, now, n).0, k) is None,
    decreases n,
{
    if n > 0 {
        let p = n - 1;
        law_named_targets_are_kept(m, list, now, p as nat, i, k);
        let (few, all) = (list.take(p), list.take(n as int));
        assert(all =~= few.push(list[p]));
        assert(all[p] == list[p]);
        if few.contains(k) {
            let j = choose|j: int| 0 <= j < few.len() && few[j] == k;
            assert(all[j] == k);
        }
    }
}

/// Where there is no room for a session, one that was quiet at least as long as
/// any other makes room, and no other does.
pub proof fn law_the_quietest_session_makes_room(room: HubState, player: u64, now: u64, k: u64, after: HubState, j: u64)
    requires
        room.is_opened_for(player, now, k, after),
        room.sessions.dom().contains(j),
    ensures
        room.sessions[k] <= room.sessions[j],
        j != k ==> after.sessions.dom().contains(j),
        k != player ==> !after.sessions.dom().contains(k),
        j != k && j != player ==> after.sessions[j] == room.sessions[j],
{
}

/// What came up is told for half an hour.
pub proof fn law_spawns_are_told_for_half_an_hour(log: Seq<SpawnEntry>, now: i64, s: SpawnEntry)
    ensures
        log.filter(is_recent(now)).contains(s) <==> log.contains(s) && s.at_unix_ms + 1_800_000 >= now,
{
    lemma_filter_keeps(log, is_recent(now), s);
}

} // verus!
