//! What the feed of a database does to the maps of its region and to the
//! catalogues of the world: seeding, going live, starting over.

use std::sync::Arc;

use vstd::prelude::*;

use crate::bitme::hub::LiveTable;
use crate::decode::columns::{resolve_cols, ColMaps, RESOURCE_TABLE};
use crate::discovery::naming::{parse_region_number, region_in_name, GLOBAL_DATABASE, REGION_PREFIX};
use crate::name_table::NameTable;
use crate::roads::apply::{apply_roads_rows, batch_applied, finalize_terrain_seed, row_fits, Applied, RowInput};
use crate::roads::catalog::{
    apply_global_delete, apply_global_insert, global_error, global_fits, reads_global, rows_go, CatalogModel,
    GlobalRoadsCatalog, GlobalRow,
};
use crate::roads::coords::map_region;
use crate::roads::harvestable::HarvestableCatalog;
use crate::roads::meta::RoadsTableMeta;
use crate::roads::store::{is_best_dimension, GridModel, RoadsRegionGrid};
use crate::schema::{columns, DecodeError, MirroredSchema};
use crate::text::{chars_of, decimal, law_decimal_round_trip, same_text, text_of};

verus! {

/// Number of messages that may wait for a worker.
pub const FEED_CHANNEL_CAPACITY: usize = 64;

/// What a database feeds.
#[derive(Debug, Clone, Copy, PartialEq, Eq, Structural)]
pub enum FeedKind {
    /// The database of the whole world while no maps are kept: nothing.
    Nothing,
    /// The catalogues of the world.
    Global,
    Region(u32),
}

/// What a database feeds; `None` for one that is neither regional nor global.
pub open spec fn feeds(database: Seq<char>, roads: bool) -> Option<FeedKind> {
    if database == GLOBAL_DATABASE@ {
        Some(
            if roads {
                FeedKind::Global
            } else {
                FeedKind::Nothing
            },
        )
    } else {
        match region_in_name(database) {
            Some(region) => Some(FeedKind::Region(region)),
            None => None,
        }
    }
}

/// Tells what a database feeds.
pub fn feed_kind(database: &str, roads: bool) -> (r: Option<FeedKind>)
    ensures
        r == feeds(database@, roads),
{
    if same_text(database, GLOBAL_DATABASE) {
        return if roads {
            Some(FeedKind::Global)
        } else {
            Some(FeedKind::Nothing)
        };
    }
    match parse_region_number(database) {
        Some(region) => Some(FeedKind::Region(region)),
        None => None,
    }
}

/// What a worker needs to read the rows of a region.
pub struct RegionColumns {
    pub tables: ColMaps,
    pub roads: Option<RoadsTableMeta>,
}

/// Whether a schema has few enough columns for their offsets to fit.
pub open spec fn schema_fits(schema: MirroredSchema) -> bool {
    columns(schema, RESOURCE_TABLE) matches Ok(f) ==> 32 * f.len() <= usize::MAX
}

/// The first table or column that a regional database lacks.
pub open spec fn region_lacks(schema: MirroredSchema, roads: bool) -> Option<DecodeError> {
    match ColMaps::missing(schema) {
        Some(e) => Some(e),
        None => if roads {
            RoadsTableMeta::regional_missing(schema)
        } else {
            None
        },
    }
}

/// Finds the columns of a regional database, those of the maps only where maps
/// are kept.
pub fn region_columns(schema: &MirroredSchema, roads: bool) -> (r: Result<RegionColumns, DecodeError>)
    requires
        schema_fits(*schema),
    ensures
        match r {
            Ok(c) => {
                &&& region_lacks(*schema, roads) is None
                &&& c.tables.found(*schema)
                &&& c.roads is Some <==> roads
                &&& c.roads matches Some(m) ==> m.regional(*schema)
            },
            Err(e) => region_lacks(*schema, roads) == Some(e),
        },
{
    let tables: ColMaps = resolve_cols(schema)?;
    let roads_meta: Option<RoadsTableMeta> = if roads {
        let m: RoadsTableMeta = RoadsTableMeta::from_schema_regional(schema)?;
        Some(m)
    } else {
        None
    };
    Ok(RegionColumns { tables, roads: roads_meta })
}

/// What registering a database leads to.
pub enum Registration {
    /// The database feeds nothing.
    Ignored,
    /// The database feeds the catalogues of the world.
    Global(RoadsTableMeta),
    /// The database feeds a region.
    Region { region: u32, columns: RegionColumns },
}

/// Why a database cannot be registered.
#[derive(Debug)]
pub enum RegisterError {
    /// The database is neither regional nor global.
    NotARegion,
    /// The schema lacks something.
    Schema(DecodeError),
}

/// Who takes the messages of a database.
#[derive(Debug, Clone, Copy, PartialEq, Eq, Structural)]
pub enum FeedTarget {
    Nobody,
    Global,
    Region(u32),
}

/// The databases that are fed.
pub struct FeedManager {
    roads: bool,
    global: bool,
    regions: NameTable<u32>,
}

/// What [`FeedManager`] holds.
#[verifier::ext_equal]
pub struct FeedModel {
    pub roads: bool,
    pub global: bool,
    pub regions: Map<Seq<char>, u32>,
}

impl FeedModel {
    /// Who takes the messages of a database.
    pub open spec fn target(self, database: Seq<char>) -> FeedTarget {
        if database == GLOBAL_DATABASE@ {
            if self.global {
                FeedTarget::Global
            } else {
                FeedTarget::Nobody
            }
        } else if self.regions.dom().contains(database) {
            FeedTarget::Region(self.regions[database])
        } else {
            FeedTarget::Nobody
        }
    }
}

impl View for FeedManager {
    type V = FeedModel;

    closed spec fn view(&self) -> FeedModel {
        FeedModel { roads: self.roads, global: self.global, regions: self.regions@ }
    }
}

impl FeedManager {
    /// The table is well formed.
    pub closed spec fn wf(&self) -> bool {
        self.regions.wf()
    }

    /// No database is fed, and no maps are kept.
    pub fn new() -> (r: Self)
        ensures
            r.wf(),
            r@ == (FeedModel { roads: false, global: false, regions: Map::empty() }),
    {
        FeedManager { roads: false, global: false, regions: NameTable::new() }
    }

    /// Maps are kept from now on.
    pub fn enable_roads(&mut self)
        requires
            old(self).wf(),
        ensures
            final(self).wf(),
            final(self)@ == (FeedModel { roads: true, ..old(self)@ }),
    {
        self.roads = true;
    }

    /// Whether maps are kept.
    pub fn roads_enabled(&self) -> (r: bool)
        ensures
            r == self@.roads,
    {
        self.roads
    }

    /// Registers a database with its schema.
    pub fn register_region(&mut self, database: &str, schema: &MirroredSchema) -> (r: Result<Registration, RegisterError>)
        requires
            old(self).wf(),
            schema_fits(*schema),
        ensures
            final(self).wf(),
            match feeds(database@, old(self)@.roads) {
                None => r matches Err(e) && e is NotARegion && final(self)@ == old(self)@,
                Some(FeedKind::Nothing) => r matches Ok(k) && k is Ignored && final(self)@ == old(self)@,
                Some(FeedKind::Global) => {
                    &&& r matches Ok(k)
                    &&& k matches Registration::Global(m)
                    &&& m.global(*schema)
                    &&& final(self)@ == (FeedModel { global: true, ..old(self)@ })
                },
                Some(FeedKind::Region(region)) => match region_lacks(*schema, old(self)@.roads) {
                    Some(lack) => {
                        &&& r matches Err(e)
                        &&& e == RegisterError::Schema(lack)
                        &&& final(self)@ == old(self)@
                    },
                    None => {
                        &&& r matches Ok(k)
                        &&& k matches Registration::Region { region: n, columns }
                        &&& n == region
                        &&& columns.tables.found(*schema)
                        &&& columns.roads is Some <==> old(self)@.roads
                        &&& columns.roads matches Some(m) ==> m.regional(*schema)
                        &&& final(self)@ == (FeedModel {
                            regions: old(self)@.regions.insert(database@, region),
                            ..old(self)@
                        })
                    },
                },
            },
    {
        let kind: FeedKind = match feed_kind(database, self.roads) {
            Some(k) => k,
            None => {
                return Err(RegisterError::NotARegion);
            },
        };
        match kind {
            FeedKind::Nothing => Ok(Registration::Ignored),
            FeedKind::Global => match RoadsTableMeta::from_schema_global(schema) {
                Ok(m) => {
                    self.global = true;
                    Ok(Registration::Global(m))
                },
                Err(e) => Err(RegisterError::Schema(e)),
            },
            FeedKind::Region(region) => match region_columns(schema, self.roads) {
                Ok(columns) => {
                    let _ = self.regions.insert(text_of(chars_of(database).as_slice()), region);
                    Ok(Registration::Region { region, columns })
                },
                Err(e) => Err(RegisterError::Schema(e)),
            },
        }
    }

    /// Who takes the messages of a database.
    pub fn target(&self, database: &str) -> (r: FeedTarget)
        requires
            self.wf(),
        ensures
            r == self@.target(database@),
    {
        if same_text(database, GLOBAL_DATABASE) {
            if self.global {
                FeedTarget::Global
            } else {
                FeedTarget::Nobody
            }
        } else {
            match self.regions.get(database) {
                Some(region) => FeedTarget::Region(*region),
                None => FeedTarget::Nobody,
            }
        }
    }
}

/// Whether the rows of a table were applied to maps, up to the first one that
/// cannot be read.
pub open spec fn table_applied(
    before: GridModel,
    after: GridModel,
    meta: RoadsTableMeta,
    t: LiveTable,
    now: i64,
    r: Result<(), DecodeError>,
) -> bool {
    exists|a: Applied| batch_applied(before, after, meta, t.name@, t.deletes@, t.inserts@, now, r, a)
}

/// Whether maps went through states as the tables of an update were applied in
/// turn: to the last table, or to the first one with a row that cannot be
/// read.
pub open spec fn went_through(
    states: Seq<GridModel>,
    meta: RoadsTableMeta,
    tables: Seq<LiveTable>,
    now: i64,
    r: Result<(), DecodeError>,
) -> bool {
    &&& 1 <= states.len() <= tables.len() + 1
    &&& forall|i: int|
        0 <= i < states.len() - 1 && (r is Ok || i < states.len() - 2) ==> table_applied(
            #[trigger] states[i],
            states[i + 1],
            meta,
            tables[i],
            now,
            Ok(()),
        )
    &&& match r {
        Ok(_) => states.len() == tables.len() + 1,
        Err(e) => states.len() >= 2 && table_applied(
            states[states.len() - 2],
            states.last(),
            meta,
            tables[states.len() - 2],
            now,
            Err(e),
        ),
    }
}

/// Whether an update was applied to maps.
pub open spec fn update_applied(
    before: GridModel,
    after: GridModel,
    meta: RoadsTableMeta,
    tables: Seq<LiveTable>,
    now: i64,
    r: Result<(), DecodeError>,
) -> bool {
    exists|states: Seq<GridModel>| #[trigger]
        went_through(states, meta, tables, now, r) && states.first() == before && states.last() == after
}

/// Whether an update was applied to maps as far as it can be read.
pub open spec fn update_taken(
    before: GridModel,
    after: GridModel,
    meta: RoadsTableMeta,
    tables: Seq<LiveTable>,
    now: i64,
) -> bool {
    exists|r: Result<(), DecodeError>| update_applied(before, after, meta, tables, now, r)
}

/// Whether rows have the columns that are read of them.
pub open spec fn tables_fit(meta: RoadsTableMeta, tables: Seq<LiveTable>) -> bool {
    &&& forall|i: int, k: int|
        #![trigger tables[i].deletes@[k]]
        0 <= i < tables.len() && 0 <= k < tables[i].deletes@.len() ==> row_fits(
            meta,
            tables[i].name@,
            tables[i].deletes@[k],
        )
    &&& forall|i: int, k: int|
        #![trigger tables[i].inserts@[k]]
        0 <= i < tables.len() && 0 <= k < tables[i].inserts@.len() ==> row_fits(
            meta,
            tables[i].name@,
            tables[i].inserts@[k],
        )
}

/// Applies an update to maps. The first row that cannot be read ends it.
pub fn apply_roads_update(grid: &mut RoadsRegionGrid, meta: &RoadsTableMeta, tables: &[LiveTable], now_ms: i64) -> (r:
    Result<(), DecodeError>)
    requires
        old(grid).wf(),
        tables_fit(*meta, tables@),
    ensures
        final(grid).wf(),
        update_applied(old(grid)@, final(grid)@, *meta, tables@, now_ms, r),
{
    let ghost mut states: Seq<GridModel> = seq![grid@];
    let mut i: usize = 0;
    while i < tables.len()
        invariant
            grid.wf(),
            tables_fit(*meta, tables@),
            i <= tables@.len(),
            states.len() == i + 1,
            states.first() == old(grid)@,
            states.last() == grid@,
            forall|k: int|
                0 <= k < i ==> table_applied(#[trigger] states[k], states[k + 1], *meta, tables@[k], now_ms, Ok(())),
        decreases tables.len() - i,
    {
        let t = &tables[i];
        let ghost before = grid@;
        let r = apply_roads_rows(grid, meta, t.name.as_str(), t.deletes.as_slice(), t.inserts.as_slice(), now_ms);
        proof {
            assert(table_applied(before, grid@, *meta, tables@[i as int], now_ms, r));
            let was = states;
            states = states.push(grid@);
            assert forall|k: int| 0 <= k < i implies table_applied(
                #[trigger] states[k],
                states[k + 1],
                *meta,
                tables@[k],
                now_ms,
                Ok(()),
            ) by {
                assert(states[k] == was[k] && states[k + 1] == was[k + 1]);
            }
            assert(states[i as int] == before);
        }
        match r {
            Ok(u) => {
                assert(r == Ok::<(), DecodeError>(()));
            },
            Err(e) => {
                assert(went_through(states, *meta, tables@, now_ms, Err(e)));
                return Err(e);
            },
        }
        i += 1;
    }
    assert(went_through(states, *meta, tables@, now_ms, Ok(())));
    Ok(())
}

/// Maps of a region between two messages.
pub enum RoadsPhase {
    /// No maps are kept, or they take no more updates.
    Off,
    /// Maps that are being filled.
    Seeding(RoadsRegionGrid),
    /// The maps that can be read take the updates.
    Live,
}

/// What [`RoadsPhase`] holds.
pub enum PhaseModel {
    Off,
    Seeding(GridModel),
    Live,
}

/// What to do with the rows of the region.
#[derive(Debug, Clone, Copy, PartialEq, Eq, Structural)]
pub enum StoreStep {
    Nothing,
    /// Forget the rows; start to collect new ones.
    Clear,
    /// The collected rows are all there: put them in place, and their
    /// memberships in place of the old ones.
    Publish,
    /// Start to collect anew, with this update.
    CollectAfresh,
    /// Collect this update.
    Collect,
    /// Apply this update to the rows in place, and tell those who watch.
    Apply,
}

/// What to do with the maps that can be read.
pub enum RoadsStep {
    Nothing,
    /// Put these in their place.
    Replace(RoadsRegionGrid),
    /// Apply this update to them.
    Apply,
}

/// The feed of a region. The first messages are those of generation 1.
pub struct RegionWorker {
    pub region: u32,
    pub generation: u64,
    /// Whether rows are being collected.
    pub seeding: bool,
    pub meta: Option<RoadsTableMeta>,
    pub phase: RoadsPhase,
    pub catalog: Arc<HarvestableCatalog>,
}

/// What a phase holds.
pub open spec fn phase_model(p: RoadsPhase) -> PhaseModel {
    match p {
        RoadsPhase::Off => PhaseModel::Off,
        RoadsPhase::Seeding(g) => PhaseModel::Seeding(g@),
        RoadsPhase::Live => PhaseModel::Live,
    }
}

/// Whether maps are those of a region that was just filled.
pub open spec fn is_finished(staged: GridModel, done: GridModel, now: i64) -> bool {
    let dimension = done.writer.dimension;
    &&& is_best_dimension(staged.dims, dimension)
    &&& done == (GridModel { ready: true, loaded_at: now, updated_at: now, ..staged.terrain_seeded(dimension) })
}

/// Whether nothing but what a worker is about to do differs.
pub open spec fn same_feed(a: RegionWorker, b: RegionWorker) -> bool {
    b.region == a.region && b.meta == a.meta && b.catalog == a.catalog
}

/// Whether a worker ignored a message.
pub open spec fn ignored(a: RegionWorker, b: RegionWorker, r: (StoreStep, RoadsStep)) -> bool {
    b == a && r == (StoreStep::Nothing, RoadsStep::Nothing)
}

/// What a worker makes of the message that the mirror starts over.
pub open spec fn reset_decided(
    a: RegionWorker,
    b: RegionWorker,
    generation: u64,
    now: i64,
    r: (StoreStep, RoadsStep),
) -> bool {
    if generation < a.generation {
        ignored(a, b, r)
    } else {
        &&& same_feed(a, b)
        &&& b.generation == generation
        &&& b.seeding
        &&& r.0 is Clear
        &&& match a.meta {
            Some(_) => {
                &&& phase_model(b.phase) == PhaseModel::Seeding(a.fresh(now))
                &&& r.1 matches RoadsStep::Replace(g)
                &&& g.wf()
                &&& g@ == a.fresh(now)
            },
            None => b.phase == a.phase && r.1 is Nothing,
        }
    }
}

/// What a worker makes of the message that the mirror has sent all rows.
pub open spec fn live_decided(
    a: RegionWorker,
    b: RegionWorker,
    generation: u64,
    now: i64,
    r: (StoreStep, RoadsStep),
) -> bool {
    if generation != a.generation {
        ignored(a, b, r)
    } else {
        &&& same_feed(a, b)
        &&& b.generation == a.generation
        &&& !b.seeding
        &&& r.0 == if a.seeding {
            StoreStep::Publish
        } else {
            StoreStep::Nothing
        }
        &&& match phase_model(a.phase) {
            PhaseModel::Seeding(staged) => {
                &&& b.phase is Live
                &&& r.1 matches RoadsStep::Replace(g)
                &&& g.wf()
                &&& is_finished(staged, g@, now)
            },
            _ => b.phase is Off && r.1 is Nothing,
        }
    }
}

/// What a worker makes of rows that changed.
pub open spec fn update_decided(
    a: RegionWorker,
    b: RegionWorker,
    generation: u64,
    is_seed: bool,
    tables: Seq<LiveTable>,
    now: i64,
    r: (StoreStep, RoadsStep),
) -> bool {
    if generation != a.generation {
        ignored(a, b, r)
    } else if is_seed || a.seeding {
        &&& same_feed(a, b)
        &&& b.generation == a.generation
        &&& b.seeding
        &&& r.0 == if a.seeding {
            StoreStep::Collect
        } else {
            StoreStep::CollectAfresh
        }
        &&& r.1 is Nothing
        &&& match (a.meta, phase_model(a.phase)) {
            (Some(m), PhaseModel::Seeding(before)) => {
                &&& phase_model(b.phase) matches PhaseModel::Seeding(after)
                &&& update_taken(before, after, m, tables, now)
            },
            _ => b.phase == a.phase,
        }
    } else {
        &&& b == a
        &&& r.0 is Apply
        &&& r.1 == if a.meta is Some && a.phase is Live {
            RoadsStep::Apply
        } else {
            RoadsStep::Nothing
        }
    }
}

/// One thing that a mirror tells a worker.
#[derive(Debug)]
pub enum FeedEvent {
    /// The mirror starts over.
    Reset { generation: u64 },
    /// The mirror has sent all rows.
    Live { generation: u64 },
    /// Rows changed.
    Update { generation: u64, is_seed: bool, tables: Vec<LiveTable> },
}

/// Whether an event is one of a generation that is over, or of one that has not
/// begun.
pub open spec fn is_stale(generation: u64, e: FeedEvent) -> bool {
    match e {
        FeedEvent::Reset { generation: g } => g < generation,
        FeedEvent::Live { generation: g } => g != generation,
        FeedEvent::Update { generation: g, .. } => g != generation,
    }
}

/// The rows that an event brings.
pub open spec fn rows_of(e: FeedEvent) -> Seq<LiveTable> {
    match e {
        FeedEvent::Update { tables, .. } => tables@,
        _ => Seq::empty(),
    }
}

/// What a worker makes of an event.
pub open spec fn decided(
    a: RegionWorker,
    b: RegionWorker,
    e: FeedEvent,
    now: i64,
    r: (StoreStep, RoadsStep),
) -> bool {
    match e {
        FeedEvent::Reset { generation } => reset_decided(a, b, generation, now, r),
        FeedEvent::Live { generation } => live_decided(a, b, generation, now, r),
        FeedEvent::Update { generation, is_seed, tables } => {
            update_decided(a, b, generation, is_seed, tables@, now, r)
        },
    }
}

/// Does what a worker asks for with the maps that can be read. What cannot be
/// read of an update is left out.
pub fn carry_out_maps(
    step: RoadsStep,
    grid: &mut RoadsRegionGrid,
    meta: &RoadsTableMeta,
    tables: &[LiveTable],
    now_ms: i64,
) -> (r: Result<(), DecodeError>)
    requires
        old(grid).wf(),
        tables_fit(*meta, tables@),
        step matches RoadsStep::Replace(g) ==> g.wf(),
    ensures
        final(grid).wf(),
        maps_carried(step, old(grid)@, final(grid)@, *meta, tables@, now_ms, r),
{
    match step {
        RoadsStep::Nothing => Ok(()),
        RoadsStep::Replace(g) => {
            *grid = g;
            Ok(())
        },
        RoadsStep::Apply => apply_roads_update(grid, meta, tables, now_ms),
    }
}

/// Whether what a worker asked for was done with the maps that can be read.
pub open spec fn maps_carried(
    step: RoadsStep,
    before: GridModel,
    after: GridModel,
    meta: RoadsTableMeta,
    tables: Seq<LiveTable>,
    now: i64,
    r: Result<(), DecodeError>,
) -> bool {
    match step {
        RoadsStep::Nothing => after == before && r is Ok,
        RoadsStep::Replace(g) => after == g@ && r is Ok,
        RoadsStep::Apply => update_applied(before, after, meta, tables, now, r),
    }
}

impl RegionWorker {
    /// Takes what the mirror tells.
    pub fn take(&mut self, event: &FeedEvent, now_ms: i64) -> (r: (StoreStep, RoadsStep))
        requires
            old(self).wf(),
            old(self).meta matches Some(m) ==> tables_fit(m, rows_of(*event)),
        ensures
            final(self).wf(),
            decided(*old(self), *final(self), *event, now_ms, r),
            r.1 matches RoadsStep::Replace(g) ==> g.wf(),
    {
        match event {
            FeedEvent::Reset { generation } => self.on_reset(*generation, now_ms),
            FeedEvent::Live { generation } => self.on_live(*generation, now_ms),
            FeedEvent::Update { generation, is_seed, tables } => {
                self.on_update(*generation, *is_seed, tables.as_slice(), now_ms)
            },
        }
    }

    /// The catalogue is well formed, and so are maps that are being filled.
    pub open spec fn wf(&self) -> bool {
        &&& self.catalog.wf()
        &&& self.phase matches RoadsPhase::Seeding(g) ==> g.wf()
    }

    /// Maps of the region that nothing is known of.
    pub open spec fn fresh(&self, now: i64) -> GridModel {
        GridModel::fresh(map_region(self.region), *self.catalog, now)
    }

    /// A feed before its first message. With `meta`, maps are kept.
    pub fn new(region: u32, meta: Option<RoadsTableMeta>, catalog: Arc<HarvestableCatalog>, now_ms: i64) -> (r: Self)
        requires
            catalog.wf(),
        ensures
            r.wf(),
            r.region == region,
            r.generation == 1,
            r.seeding,
            r.meta == meta,
            r.catalog == catalog,
            phase_model(r.phase) == match meta {
                Some(_) => PhaseModel::Seeding(r.fresh(now_ms)),
                None => PhaseModel::Off,
            },
    {
        let phase = match meta {
            Some(_) => RoadsPhase::Seeding(
                RoadsRegionGrid::new((region % 0x1_0000) as u16, catalog.clone(), now_ms),
            ),
            None => RoadsPhase::Off,
        };
        RegionWorker { region, generation: 1, seeding: true, meta, phase, catalog }
    }

    /// The mirror starts over. A message of an older generation is ignored.
    pub fn on_reset(&mut self, generation: u64, now_ms: i64) -> (r: (StoreStep, RoadsStep))
        requires
            old(self).wf(),
        ensures
            final(self).wf(),
            reset_decided(*old(self), *final(self), generation, now_ms, r),
    {
        if generation < self.generation {
            return (StoreStep::Nothing, RoadsStep::Nothing);
        }
        self.generation = generation;
        self.seeding = true;
        match self.meta {
            Some(_) => {
                let region: u16 = (self.region % 0x1_0000) as u16;
                let staging = RoadsRegionGrid::new(region, self.catalog.clone(), now_ms);
                let shown = RoadsRegionGrid::new(region, self.catalog.clone(), now_ms);
                self.phase = RoadsPhase::Seeding(staging);
                (StoreStep::Clear, RoadsStep::Replace(shown))
            },
            None => (StoreStep::Clear, RoadsStep::Nothing),
        }
    }

    /// The mirror has sent all rows. Maps that were being filled become those
    /// that can be read; maps that already were take no more updates.
    pub fn on_live(&mut self, generation: u64, now_ms: i64) -> (r: (StoreStep, RoadsStep))
        requires
            old(self).wf(),
        ensures
            final(self).wf(),
            live_decided(*old(self), *final(self), generation, now_ms, r),
    {
        if generation != self.generation {
            return (StoreStep::Nothing, RoadsStep::Nothing);
        }
        let store: StoreStep = if self.seeding {
            StoreStep::Publish
        } else {
            StoreStep::Nothing
        };
        self.seeding = false;
        let mut phase = RoadsPhase::Off;
        std::mem::swap(&mut phase, &mut self.phase);
        match phase {
            RoadsPhase::Seeding(staging) => {
                let mut grid = staging;
                finalize_terrain_seed(&mut grid);
                grid.mark_ready(now_ms);
                self.phase = RoadsPhase::Live;
                (store, RoadsStep::Replace(grid))
            },
            _ => (store, RoadsStep::Nothing),
        }
    }

    /// Rows changed. Rows of the first filling are collected aside; once the
    /// region is live, changes go to what can be read. What cannot be read of
    /// an update is left out.
    pub fn on_update(&mut self, generation: u64, is_seed: bool, tables: &[LiveTable], now_ms: i64) -> (r: (
        StoreStep,
        RoadsStep,
    ))
        requires
            old(self).wf(),
            old(self).meta matches Some(m) ==> tables_fit(m, tables@),
        ensures
            final(self).wf(),
            update_decided(*old(self), *final(self), generation, is_seed, tables@, now_ms, r),
    {
        if generation != self.generation {
            return (StoreStep::Nothing, RoadsStep::Nothing);
        }
        if is_seed || self.seeding {
            let store: StoreStep = if self.seeding {
                StoreStep::Collect
            } else {
                StoreStep::CollectAfresh
            };
            self.seeding = true;
            if let Some(meta) = self.meta {
                let mut phase = RoadsPhase::Off;
                std::mem::swap(&mut phase, &mut self.phase);
                match phase {
                    RoadsPhase::Seeding(staging) => {
                        let mut grid = staging;
                        let ghost before = grid@;
                        let result = apply_roads_update(&mut grid, &meta, tables, now_ms);
                        let ghost after = grid@;
                        assert(update_applied(before, after, meta, tables@, now_ms, result));
                        self.phase = RoadsPhase::Seeding(grid);
                        assert(update_taken(before, after, meta, tables@, now_ms));
                    },
                    RoadsPhase::Live => {
                        self.phase = RoadsPhase::Live;
                    },
                    RoadsPhase::Off => {},
                }
            }
            return (store, RoadsStep::Nothing);
        }
        match (&self.meta, &self.phase) {
            (Some(_), RoadsPhase::Live) => (StoreStep::Apply, RoadsStep::Apply),
            _ => (StoreStep::Apply, RoadsStep::Nothing),
        }
    }
}

/// Whether a row went from the catalogues, or was left out because it cannot
/// be read.
pub open spec fn global_gone(
    before: CatalogModel,
    after: CatalogModel,
    meta: RoadsTableMeta,
    table: Seq<char>,
    input: RowInput,
) -> bool {
    ||| after == before && (!rows_go(table) || global_error(meta, table, input) is Some)
    ||| rows_go(table) && exists|row: GlobalRow|
        reads_global(meta, table, input, row) && after == #[trigger] before.without_row(row)
}

/// Whether a row came to the catalogues, or was left out because it cannot be
/// read.
pub open spec fn global_came(
    before: CatalogModel,
    after: CatalogModel,
    meta: RoadsTableMeta,
    table: Seq<char>,
    input: RowInput,
) -> bool {
    ||| after == before && global_error(meta, table, input) is Some
    ||| exists|row: GlobalRow| reads_global(meta, table, input, row) && after == #[trigger] before.with_row(row)
}

/// Whether the catalogues went through states as the rows of a table went and
/// came in turn.
pub open spec fn catalog_through(states: Seq<CatalogModel>, meta: RoadsTableMeta, t: LiveTable) -> bool {
    &&& states.len() == t.deletes@.len() + t.inserts@.len() + 1
    &&& forall|i: int|
        0 <= i < t.deletes@.len() ==> global_gone(
            #[trigger] states[i],
            states[i + 1],
            meta,
            t.name@,
            t.deletes@[i],
        )
    &&& forall|i: int|
        t.deletes@.len() <= i < states.len() - 1 ==> global_came(
            #[trigger] states[i],
            states[i + 1],
            meta,
            t.name@,
            t.inserts@[i - t.deletes@.len()],
        )
}

/// Whether the rows of a table were applied to the catalogues.
pub open spec fn catalog_applied(before: CatalogModel, after: CatalogModel, meta: RoadsTableMeta, t: LiveTable) -> bool {
    exists|states: Seq<CatalogModel>| #[trigger]
        catalog_through(states, meta, t) && states.first() == before && states.last() == after
}

/// Whether the rows of a table have the columns that are read of them.
pub open spec fn global_table_fits(meta: RoadsTableMeta, t: LiveTable) -> bool {
    &&& forall|k: int| 0 <= k < t.deletes@.len() ==> global_fits(meta, t.name@, #[trigger] t.deletes@[k])
    &&& forall|k: int| 0 <= k < t.inserts@.len() ==> global_fits(meta, t.name@, #[trigger] t.inserts@[k])
}

/// Applies the rows of a table to the catalogues. A row that cannot be read is
/// left out.
pub fn apply_global_table(catalog: &mut GlobalRoadsCatalog, meta: &RoadsTableMeta, t: &LiveTable)
    requires
        old(catalog).wf(),
        global_table_fits(*meta, *t),
    ensures
        final(catalog).wf(),
        catalog_applied(old(catalog)@, final(catalog)@, *meta, *t),
{
    let ghost mut states: Seq<CatalogModel> = seq![catalog@];
    let mut i: usize = 0;
    while i < t.deletes.len()
        invariant
            catalog.wf(),
            global_table_fits(*meta, *t),
            i <= t.deletes@.len(),
            states.len() == i + 1,
            states.first() == old(catalog)@,
            states.last() == catalog@,
            forall|k: int|
                0 <= k < i ==> global_gone(#[trigger] states[k], states[k + 1], *meta, t.name@, t.deletes@[k]),
        decreases t.deletes.len() - i,
    {
        let ghost before = catalog@;
        let _ = apply_global_delete(catalog, meta, t.name.as_str(), &t.deletes[i]);
        proof {
            assert(global_gone(before, catalog@, *meta, t.name@, t.deletes@[i as int]));
            let was = states;
            states = states.push(catalog@);
            assert forall|k: int| 0 <= k < i + 1 implies global_gone(
                #[trigger] states[k],
                states[k + 1],
                *meta,
                t.name@,
                t.deletes@[k],
            ) by {
                if k < i {
                    assert(states[k] == was[k] && states[k + 1] == was[k + 1]);
                }
            }
        }
        i += 1;
    }
    let ghost d = t.deletes@.len() as int;
    let mut j: usize = 0;
    while j < t.inserts.len()
        invariant
            catalog.wf(),
            global_table_fits(*meta, *t),
            d == t.deletes@.len(),
            j <= t.inserts@.len(),
            states.len() == d + j + 1,
            states.first() == old(catalog)@,
            states.last() == catalog@,
            forall|k: int|
                0 <= k < d ==> global_gone(#[trigger] states[k], states[k + 1], *meta, t.name@, t.deletes@[k]),
            forall|k: int|
                d <= k < d + j ==> global_came(#[trigger] states[k], states[k + 1], *meta, t.name@, t.inserts@[k - d]),
        decreases t.inserts.len() - j,
    {
        let ghost before = catalog@;
        let _ = apply_global_insert(catalog, meta, t.name.as_str(), &t.inserts[j]);
        proof {
            assert(global_came(before, catalog@, *meta, t.name@, t.inserts@[j as int]));
            let was = states;
            states = states.push(catalog@);
            assert forall|k: int| 0 <= k < d implies global_gone(
                #[trigger] states[k],
                states[k + 1],
                *meta,
                t.name@,
                t.deletes@[k],
            ) by {
                assert(states[k] == was[k] && states[k + 1] == was[k + 1]);
            }
            assert forall|k: int| d <= k < d + j + 1 implies global_came(
                #[trigger] states[k],
                states[k + 1],
                *meta,
                t.name@,
                t.inserts@[k - d],
            ) by {
                if k < d + j {
                    assert(states[k] == was[k] && states[k + 1] == was[k + 1]);
                }
            }
        }
        j += 1;
    }
    assert(catalog_through(states, *meta, *t));
}

/// Whether the catalogues went through states as the tables of an update were
/// applied in turn.
pub open spec fn tables_through(states: Seq<CatalogModel>, meta: RoadsTableMeta, tables: Seq<LiveTable>) -> bool {
    &&& states.len() == tables.len() + 1
    &&& forall|i: int|
        0 <= i < tables.len() ==> catalog_applied(#[trigger] states[i], states[i + 1], meta, tables[i])
}

/// The feed of the whole world. The first messages are those of generation 1.
#[derive(Debug, Clone, Copy, PartialEq, Eq, Structural)]
pub struct GlobalWorker {
    pub generation: u64,
}

/// The feed of the whole world and its catalogues.
#[verifier::ext_equal]
pub struct WorldState {
    pub generation: u64,
    pub catalog: CatalogModel,
}

/// What an event makes of the catalogues of the world.
pub open spec fn world_fed(a: WorldState, b: WorldState, e: FeedEvent, meta: RoadsTableMeta) -> bool {
    if is_stale(a.generation, e) {
        b == a
    } else {
        match e {
            FeedEvent::Reset { generation } => b.generation == generation && b.catalog == CatalogModel::unknown(),
            FeedEvent::Live { .. } => b == (WorldState { catalog: CatalogModel { ready: true, ..a.catalog }, ..a }),
            FeedEvent::Update { tables, .. } => {
                &&& b.generation == a.generation
                &&& exists|states: Seq<CatalogModel>| #[trigger]
                    tables_through(states, meta, tables@) && states.first() == a.catalog && states.last() == b.catalog
            },
        }
    }
}

impl GlobalWorker {
    /// Takes what the mirror tells. Tells whether it counts.
    pub fn take(&mut self, catalog: &mut GlobalRoadsCatalog, meta: &RoadsTableMeta, event: &FeedEvent) -> (r: bool)
        requires
            old(catalog).wf(),
            forall|i: int| 0 <= i < rows_of(*event).len() ==> global_table_fits(*meta, #[trigger] rows_of(*event)[i]),
        ensures
            final(catalog).wf(),
            r <==> !is_stale(old(self).generation, *event),
            world_fed(
                (WorldState { generation: old(self).generation, catalog: old(catalog)@ }),
                (WorldState { generation: final(self).generation, catalog: final(catalog)@ }),
                *event,
                *meta,
            ),
    {
        match event {
            FeedEvent::Reset { generation } => self.on_reset(catalog, *generation),
            FeedEvent::Live { generation } => self.on_live(catalog, *generation),
            FeedEvent::Update { generation, tables, .. } => {
                assert(rows_of(*event) == tables@);
                self.on_update(catalog, meta, *generation, tables.as_slice())
            },
        }
    }

    /// A feed before its first message.
    pub fn new() -> (r: Self)
        ensures
            r.generation == 1,
    {
        GlobalWorker { generation: 1 }
    }

    /// The mirror starts over: the catalogues are emptied. A message of an
    /// older generation is ignored. Tells whether the message counts.
    pub fn on_reset(&mut self, catalog: &mut GlobalRoadsCatalog, generation: u64) -> (r: bool)
        requires
            old(catalog).wf(),
        ensures
            final(catalog).wf(),
            r <==> generation >= old(self).generation,
            if generation < old(self).generation {
                *final(self) == *old(self) && final(catalog)@ == old(catalog)@
            } else {
                final(self).generation == generation && final(catalog)@ == CatalogModel::unknown()
            },
    {
        if generation < self.generation {
            return false;
        }
        self.generation = generation;
        *catalog = GlobalRoadsCatalog::new();
        true
    }

    /// The mirror has sent all rows: the catalogues can be read. Tells whether
    /// the message counts.
    pub fn on_live(&self, catalog: &mut GlobalRoadsCatalog, generation: u64) -> (r: bool)
        requires
            old(catalog).wf(),
        ensures
            final(catalog).wf(),
            r <==> generation == self.generation,
            final(catalog)@ == if generation == self.generation {
                CatalogModel { ready: true, ..old(catalog)@ }
            } else {
                old(catalog)@
            },
    {
        if generation != self.generation {
            return false;
        }
        catalog.mark_ready();
        true
    }

    /// Rows changed. Those that cannot be read are left out. Tells whether the
    /// message counts.
    pub fn on_update(
        &self,
        catalog: &mut GlobalRoadsCatalog,
        meta: &RoadsTableMeta,
        generation: u64,
        tables: &[LiveTable],
    ) -> (r: bool)
        requires
            old(catalog).wf(),
            forall|i: int| 0 <= i < tables@.len() ==> global_table_fits(*meta, #[trigger] tables@[i]),
        ensures
            final(catalog).wf(),
            r <==> generation == self.generation,
            if generation == self.generation {
                exists|states: Seq<CatalogModel>| #[trigger]
                    tables_through(states, *meta, tables@) && states.first() == old(catalog)@ && states.last() == final(catalog)@
            } else {
                final(catalog)@ == old(catalog)@
            },
    {
        if generation != self.generation {
            return false;
        }
        let ghost mut states: Seq<CatalogModel> = seq![catalog@];
        let mut i: usize = 0;
        while i < tables.len()
            invariant
                catalog.wf(),
                forall|i: int| 0 <= i < tables@.len() ==> global_table_fits(*meta, #[trigger] tables@[i]),
                i <= tables@.len(),
                states.len() == i + 1,
                states.first() == old(catalog)@,
                states.last() == catalog@,
                forall|k: int|
                    0 <= k < i ==> catalog_applied(#[trigger] states[k], states[k + 1], *meta, tables@[k]),
            decreases tables.len() - i,
        {
            let ghost before = catalog@;
            apply_global_table(catalog, meta, &tables[i]);
            proof {
                let was = states;
                states = states.push(catalog@);
                assert forall|k: int| 0 <= k < i + 1 implies catalog_applied(
                    #[trigger] states[k],
                    states[k + 1],
                    *meta,
                    tables@[k],
                ) by {
                    if k < i {
                        assert(states[k] == was[k] && states[k + 1] == was[k + 1]);
                    }
                }
            }
            i += 1;
        }
        assert(tables_through(states, *meta, tables@));
        true
    }
}

/// A database name tells its region: writing the number of a region behind the
/// prefix gives the database of that region.
pub proof fn law_region_database_name(region: u32)
    ensures
        feeds(REGION_PREFIX@ + decimal(region as nat), true) == Some(FeedKind::Region(region)),
{
    let prefix = REGION_PREFIX@;
    let digits = decimal(region as nat);
    let name = prefix + digits;
    law_decimal_round_trip(region as nat);
    assert(name.take(prefix.len() as int) =~= prefix);
    assert(name.skip(prefix.len() as int) =~= digits);
    assert(name != GLOBAL_DATABASE@) by {
        reveal_strlit("bitcraft-live-");
        reveal_strlit("bitcraft-live-global");
        if name == GLOBAL_DATABASE@ {
            assert(name.skip(prefix.len() as int)[0] == 'g');
            assert(digits[0] == 'g');
        }
    }
}

/// The messages of the database of a region go to that region once it is
/// registered, those of the whole world to its catalogues where maps are kept, and
/// those of any other database to nobody.
pub proof fn law_messages_go_where_they_belong(m: FeedModel, database: Seq<char>, region: u32)
    ensures
        feeds("bitcraft-live-global"@, true) == Some(FeedKind::Global),
        feeds("bitcraft-live-global"@, false) == Some(FeedKind::Nothing),
        m.target("bitcraft-live-global"@) == (if m.global {
            FeedTarget::Global
        } else {
            FeedTarget::Nobody
        }),
        database != "bitcraft-live-global"@ ==> {
            let more = FeedModel { regions: m.regions.insert(database, region), ..m };
            &&& more.target(database) == FeedTarget::Region(region)
            &&& !m.regions.dom().contains(database) ==> m.target(database) == FeedTarget::Nobody
        },
{
}

} // verus!
