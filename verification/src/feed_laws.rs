//! Laws of the feeds: what can be read of a region, and of the catalogues of the
//! world, while messages of their mirrors come in.

use vstd::prelude::*;

use crate::bitme::hub::LiveTable;
use crate::bitme::region_rows::{
    change_at, changes_in, row_done, store_through, table_done, tables_done, StoreModel,
};
use crate::decode::columns::ColMaps;
use crate::feed::{
    catalog_applied, catalog_through, decided, global_came, global_gone, is_stale, maps_carried, rows_of, table_applied,
    tables_through, update_applied, update_taken, went_through, world_fed, FeedEvent, RegionWorker, RoadsStep,
    StoreStep, WorldState,
};
use crate::roads::apply::{batch_applied, rows_came, rows_gone, Applied, RoadsRow};
use crate::roads::catalog::CatalogModel;
use crate::roads::meta::RoadsTableMeta;
use crate::roads::store::GridModel;
use crate::schema::DecodeError;
use crate::touches::{carried, rows_applied, RowsState};

verus! {

/// A region that is fed: its worker, its rows, and its maps that can be read.
pub struct FedState {
    pub worker: RegionWorker,
    pub rows: RowsState,
    pub grid: GridModel,
}

/// Whether what a worker asked for was done with the maps, if any are kept.
pub open spec fn maps_taken(
    step: RoadsStep,
    before: GridModel,
    after: GridModel,
    meta: Option<RoadsTableMeta>,
    tables: Seq<LiveTable>,
    now: i64,
) -> bool {
    match meta {
        Some(m) => exists|r: Result<(), DecodeError>| maps_carried(step, before, after, m, tables, now, r),
        None => after == before,
    }
}

/// Whether an event leads from one state of a region to another: its worker
/// decides, and what it asks for is done with the rows and with the maps.
pub open spec fn fed(a: FedState, b: FedState, e: FeedEvent, now: i64, cols: ColMaps) -> bool {
    exists|r: (StoreStep, RoadsStep)| #[trigger]
        decided(a.worker, b.worker, e, now, r) && carried(r.0, a.rows, b.rows, cols, rows_of(e)) && maps_taken(
            r.1,
            a.grid,
            b.grid,
            a.worker.meta,
            rows_of(e),
            now,
        )
}

/// Whether maps are those of a region that nothing is known of.
pub open spec fn is_blank(w: RegionWorker, grid: GridModel) -> bool {
    exists|now: i64| grid == #[trigger] w.fresh(now)
}

/// Whether a region is as it is before the first message.
pub open spec fn starts(s: FedState) -> bool {
    &&& s.worker.generation == 1
    &&& s.worker.seeding
    &&& s.worker.meta is Some ==> s.worker.phase is Seeding && is_blank(s.worker, s.grid)
    &&& s.rows.shown@ == StoreModel::empty(s.worker.region)
    &&& s.rows.staging@ == StoreModel::empty(s.worker.region)
}

/// Whether a region went through states from its first message on.
pub open spec fn is_run(states: Seq<FedState>, events: Seq<FeedEvent>, times: Seq<i64>, cols: ColMaps) -> bool {
    &&& states.len() == events.len() + 1
    &&& times.len() == events.len()
    &&& starts(states[0])
    &&& forall|i: int| 0 <= i < events.len() ==> fed(states[i], states[i + 1], #[trigger] events[i], times[i], cols)
}

/// The generation after the first `n` events: that of the last start that was
/// not stale.
pub open spec fn generation_after(events: Seq<FeedEvent>, n: nat) -> u64
    decreases n,
{
    if n == 0 {
        1
    } else {
        let before = generation_after(events, (n - 1) as nat);
        match events[n - 1] {
            FeedEvent::Reset { generation } => if is_stale(before, events[n - 1]) {
                before
            } else {
                generation
            },
            _ => before,
        }
    }
}

/// Whether the mirror has sent all rows of its generation after the first `n`
/// events.
pub open spec fn all_sent(events: Seq<FeedEvent>, n: nat) -> bool
    decreases n,
{
    if n == 0 {
        false
    } else {
        let before = all_sent(events, (n - 1) as nat);
        if is_stale(generation_after(events, (n - 1) as nat), events[n - 1]) {
            before
        } else {
            match events[n - 1] {
                FeedEvent::Reset { .. } => false,
                FeedEvent::Live { .. } => true,
                FeedEvent::Update { .. } => before,
            }
        }
    }
}

/// Rows of a table change neither the region of a store nor whether it is ready.
proof fn lemma_table_keeps_store(states: Seq<StoreModel>, cols: ColMaps, t: LiveTable, n: int)
    requires
        store_through(states, cols, t, changes_in(t)),
        0 <= n <= changes_in(t),
    ensures
        states[n].ready == states[0].ready,
        states[n].region == states[0].region,
    decreases n,
{
    if n > 0 {
        lemma_table_keeps_store(states, cols, t, n - 1);
        let (before, after) = (states[n - 1], states[n - 1 + 1]);
        assert(row_done(before, after, cols, t.name@, change_at(t, n - 1).0, change_at(t, n - 1).1));
    }
}

/// Tables change neither the region of a store nor whether it is ready.
proof fn lemma_tables_keep_store(states: Seq<StoreModel>, cols: ColMaps, tables: Seq<LiveTable>, n: int)
    requires
        tables_done(states, cols, tables, tables.len() as int),
        0 <= n <= tables.len(),
    ensures
        states[n].ready == states[0].ready,
        states[n].region == states[0].region,
    decreases n,
{
    if n > 0 {
        lemma_tables_keep_store(states, cols, tables, n - 1);
        let (before, after, t) = (states[n - 1], states[n - 1 + 1], tables[n - 1]);
        assert(table_done(before, after, cols, t));
        let inner = choose|inner: Seq<StoreModel>| #[trigger]
            store_through(inner, cols, t, changes_in(t)) && inner.first() == before && inner.last() == after;
        lemma_table_keeps_store(inner, cols, t, changes_in(t));
    }
}

/// An update changes neither the region of a store nor whether it is ready.
proof fn lemma_update_keeps_store(before: StoreModel, after: StoreModel, cols: ColMaps, tables: Seq<LiveTable>)
    requires
        rows_applied(before, after, cols, tables),
    ensures
        after.ready == before.ready,
        after.region == before.region,
{
    let states = choose|states: Seq<StoreModel>| #[trigger]
        tables_done(states, cols, tables, tables.len() as int) && states.first() == before && states.last() == after;
    lemma_tables_keep_store(states, cols, tables, tables.len() as int);
}

/// Rows that go leave maps ready or not.
proof fn lemma_gone_keeps_ready(m: GridModel, rows: Seq<RoadsRow>, now: i64, n: nat)
    ensures
        rows_gone(m, rows, now, n).ready == m.ready,
    decreases n,
{
    if n > 0 {
        lemma_gone_keeps_ready(m, rows, now, (n - 1) as nat);
    }
}

/// Rows that come leave maps ready or not.
proof fn lemma_came_keeps_ready(m: GridModel, rows: Seq<RoadsRow>, shown: Seq<u32>, now: i64, n: nat)
    ensures
        rows_came(m, rows, shown, now, n).ready == m.ready,
    decreases n,
{
    if n > 0 {
        lemma_came_keeps_ready(m, rows, shown, now, (n - 1) as nat);
    }
}

/// A table leaves maps ready or not.
proof fn lemma_table_keeps_ready(
    before: GridModel,
    after: GridModel,
    meta: RoadsTableMeta,
    t: LiveTable,
    now: i64,
    r: Result<(), DecodeError>,
)
    requires
        table_applied(before, after, meta, t, now, r),
    ensures
        after.ready == before.ready,
{
    let a = choose|a: Applied| batch_applied(before, after, meta, t.name@, t.deletes@, t.inserts@, now, r, a);
    let gone = rows_gone(before, a.gone, now, a.gone.len());
    lemma_gone_keeps_ready(before, a.gone, now, a.gone.len());
    lemma_came_keeps_ready(gone, a.came, a.shown, now, a.came.len());
}

/// The first tables leave maps ready or not.
proof fn lemma_tables_keep_ready(
    states: Seq<GridModel>,
    meta: RoadsTableMeta,
    tables: Seq<LiveTable>,
    now: i64,
    r: Result<(), DecodeError>,
    n: int,
)
    requires
        went_through(states, meta, tables, now, r),
        0 <= n < states.len(),
    ensures
        states[n].ready == states[0].ready,
    decreases n,
{
    if n > 0 {
        lemma_tables_keep_ready(states, meta, tables, now, r, n - 1);
        let (before, after) = (states[n - 1], states[n - 1 + 1]);
        if r is Ok || n - 1 < states.len() - 2 {
            assert(table_applied(before, after, meta, tables[n - 1], now, Ok(())));
            lemma_table_keeps_ready(before, after, meta, tables[n - 1], now, Ok(()));
        } else {
            lemma_table_keeps_ready(before, after, meta, tables[n - 1], now, r);
        }
    }
}

/// An update leaves maps ready or not.
proof fn lemma_update_keeps_ready(
    before: GridModel,
    after: GridModel,
    meta: RoadsTableMeta,
    tables: Seq<LiveTable>,
    now: i64,
    r: Result<(), DecodeError>,
)
    requires
        update_applied(before, after, meta, tables, now, r),
    ensures
        after.ready == before.ready,
{
    let states = choose|states: Seq<GridModel>| #[trigger]
        went_through(states, meta, tables, now, r) && states.first() == before && states.last() == after;
    lemma_tables_keep_ready(states, meta, tables, now, r, states.len() - 1);
}

/// A stale event changes nothing: neither the rows nor the maps, nor what waits
/// to be shown.
pub proof fn law_stale_events_change_nothing(a: FedState, b: FedState, e: FeedEvent, now: i64, cols: ColMaps)
    requires
        fed(a, b, e, now, cols),
        is_stale(a.worker.generation, e),
    ensures
        b.worker == a.worker,
        b.rows == a.rows,
        b.grid == a.grid,
{
}

/// A start that is not stale leaves a region without rows and with blank maps,
/// neither of them ready, and nothing that waits to be shown.
pub proof fn law_a_start_leaves_nothing(a: FedState, b: FedState, generation: u64, now: i64, cols: ColMaps)
    requires
        fed(a, b, FeedEvent::Reset { generation }, now, cols),
        generation >= a.worker.generation,
    ensures
        b.worker.generation == generation,
        b.worker.seeding,
        b.rows.shown@ == StoreModel::empty(a.rows.shown.region),
        b.rows.staging@ == StoreModel::empty(a.rows.staging.region),
        !b.rows.shown@.ready,
        a.worker.meta is Some ==> b.grid == a.worker.fresh(now) && !b.grid.ready && b.worker.phase is Seeding,
{
}

/// Rows that come before all of them are there are collected aside: what is
/// shown does not change. It does when the mirror has sent all rows, and then
/// it is what was collected.
pub proof fn law_rows_are_shown_when_all_are_there(a: FedState, b: FedState, e: FeedEvent, now: i64, cols: ColMaps)
    requires
        fed(a, b, e, now, cols),
        a.worker.seeding,
        !is_stale(a.worker.generation, e),
    ensures
        e is Update ==> {
            &&& b.rows.shown == a.rows.shown
            &&& b.rows.hub == a.rows.hub
            &&& b.grid == a.grid
            &&& rows_applied(a.rows.staging@, b.rows.staging@, cols, rows_of(e))
        },
        e is Live ==> b.rows.shown@ == (StoreModel { ready: true, ..a.rows.staging@ }),
{
}

/// What holds of a region at any time.
spec fn is_fed(s: FedState, ready: bool, generation: u64) -> bool {
    &&& s.worker.generation == generation
    &&& s.rows.shown@.ready == ready
    &&& s.rows.shown.region == s.worker.region
    &&& s.rows.staging.region == s.worker.region
    &&& !ready ==> s.worker.seeding && s.rows.shown@ == StoreModel::empty(s.worker.region)
    &&& s.worker.meta is Some ==> {
        &&& s.grid.ready == ready
        &&& s.worker.phase is Seeding <==> !ready
        &&& !ready ==> is_blank(s.worker, s.grid)
    }
}

/// One more event.
proof fn lemma_one_more_event(a: FedState, b: FedState, e: FeedEvent, now: i64, cols: ColMaps, ready: bool)
    requires
        is_fed(a, ready, a.worker.generation),
        fed(a, b, e, now, cols),
    ensures
        is_fed(
            b,
            if is_stale(a.worker.generation, e) {
                ready
            } else {
                match e {
                    FeedEvent::Reset { .. } => false,
                    FeedEvent::Live { .. } => true,
                    FeedEvent::Update { .. } => ready,
                }
            },
            match e {
                FeedEvent::Reset { generation } => if is_stale(a.worker.generation, e) {
                    a.worker.generation
                } else {
                    generation
                },
                _ => a.worker.generation,
            },
        ),
        b.worker.region == a.worker.region,
        b.worker.meta == a.worker.meta,
{
    let r = choose|r: (StoreStep, RoadsStep)| #[trigger]
        decided(a.worker, b.worker, e, now, r) && carried(r.0, a.rows, b.rows, cols, rows_of(e)) && maps_taken(
            r.1,
            a.grid,
            b.grid,
            a.worker.meta,
            rows_of(e),
            now,
        );
    let tables = rows_of(e);
    match r.0 {
        StoreStep::Collect => {
            lemma_update_keeps_store(a.rows.staging@, b.rows.staging@, cols, tables);
        },
        StoreStep::CollectAfresh => {
            lemma_update_keeps_store(StoreModel::empty(a.rows.staging.region), b.rows.staging@, cols, tables);
        },
        StoreStep::Apply => {
            lemma_update_keeps_store(a.rows.shown@, b.rows.shown@, cols, tables);
        },
        _ => {},
    }
    if let Some(m) = a.worker.meta {
        let x = choose|x: Result<(), DecodeError>| maps_carried(r.1, a.grid, b.grid, m, tables, now, x);
        if r.1 is Apply {
            lemma_update_keeps_ready(a.grid, b.grid, m, tables, now, x);
        }
        if is_blank(a.worker, a.grid) {
            let t = choose|t: i64| a.grid == #[trigger] a.worker.fresh(t);
            assert(b.worker.fresh(t) == a.worker.fresh(t));
        }
        assert(b.worker.fresh(now) == a.worker.fresh(now));
    }
}

/// What holds of a region after the first `n` events.
proof fn lemma_run(states: Seq<FedState>, events: Seq<FeedEvent>, times: Seq<i64>, cols: ColMaps, n: nat)
    requires
        is_run(states, events, times, cols),
        n <= events.len(),
    ensures
        is_fed(states[n as int], all_sent(events, n), generation_after(events, n)),
        states[n as int].worker.region == states[0].worker.region,
        states[n as int].worker.meta == states[0].worker.meta,
    decreases n,
{
    if n > 0 {
        let p = n - 1;
        lemma_run(states, events, times, cols, p as nat);
        let (a, b) = (states[p], states[p + 1]);
        assert(fed(a, b, events[p], times[p], cols));
        lemma_one_more_event(a, b, events[p], times[p], cols, all_sent(events, p as nat));
    }
}

/// Whatever a mirror sends, and in whatever order it arrives: the generation of
/// a region is that of the last start that was not stale. Its rows and its maps
/// are ready just where the mirror has since sent all rows of that generation.
/// Until then no row is shown, and the maps are blank.
pub proof fn law_a_region_shows_complete_generations(
    states: Seq<FedState>,
    events: Seq<FeedEvent>,
    times: Seq<i64>,
    cols: ColMaps,
    n: nat,
)
    requires
        is_run(states, events, times, cols),
        n <= events.len(),
    ensures
        ({
            let s = states[n as int];
            &&& s.worker.generation == generation_after(events, n)
            &&& s.rows.shown@.ready == all_sent(events, n)
            &&& !all_sent(events, n) ==> s.rows.shown@ == StoreModel::empty(states[0].worker.region)
            &&& states[0].worker.meta is Some ==> {
                &&& s.grid.ready == all_sent(events, n)
                &&& !all_sent(events, n) ==> is_blank(s.worker, s.grid)
            }
        }),
{
    lemma_run(states, events, times, cols, n);
}

/// Whether the catalogues of the world went through states from the first
/// message on.
pub open spec fn is_world_run(states: Seq<WorldState>, events: Seq<FeedEvent>, meta: RoadsTableMeta) -> bool {
    &&& states.len() == events.len() + 1
    &&& states[0].generation == 1
    &&& states[0].catalog == CatalogModel::unknown()
    &&& forall|i: int| 0 <= i < events.len() ==> world_fed(states[i], states[i + 1], #[trigger] events[i], meta)
}

/// Rows of a table leave the catalogues ready or not.
proof fn lemma_table_keeps_catalog(states: Seq<CatalogModel>, meta: RoadsTableMeta, t: LiveTable, n: int)
    requires
        catalog_through(states, meta, t),
        0 <= n < states.len(),
    ensures
        states[n].ready == states[0].ready,
    decreases n,
{
    if n > 0 {
        lemma_table_keeps_catalog(states, meta, t, n - 1);
        assert(states[n - 1].ready == states[n - 1 + 1].ready);
    }
}

/// Tables leave the catalogues ready or not.
proof fn lemma_tables_keep_catalog(states: Seq<CatalogModel>, meta: RoadsTableMeta, tables: Seq<LiveTable>, n: int)
    requires
        tables_through(states, meta, tables),
        0 <= n < states.len(),
    ensures
        states[n].ready == states[0].ready,
    decreases n,
{
    if n > 0 {
        lemma_tables_keep_catalog(states, meta, tables, n - 1);
        let (before, after, t) = (states[n - 1], states[n - 1 + 1], tables[n - 1]);
        assert(catalog_applied(before, after, meta, t));
        let inner = choose|inner: Seq<CatalogModel>| #[trigger]
            catalog_through(inner, meta, t) && inner.first() == before && inner.last() == after;
        lemma_table_keeps_catalog(inner, meta, t, inner.len() - 1);
    }
}

/// Whatever the mirror of the world sends, and in whatever order it arrives:
/// the generation of the catalogues is that of the last start that was not
/// stale, and they are ready just where the mirror has since sent all rows of
/// that generation. A stale event changes nothing.
pub proof fn law_the_world_is_ready_when_all_is_sent(
    states: Seq<WorldState>,
    events: Seq<FeedEvent>,
    meta: RoadsTableMeta,
    n: nat,
)
    requires
        is_world_run(states, events, meta),
        n <= events.len(),
    ensures
        states[n as int].generation == generation_after(events, n),
        states[n as int].catalog.ready == all_sent(events, n),
        n > 0 && is_stale(generation_after(events, (n - 1) as nat), events[n - 1]) ==> states[n as int] == states[n
            - 1],
    decreases n,
{
    if n > 0 {
        let p = n - 1;
        law_the_world_is_ready_when_all_is_sent(states, events, meta, p as nat);
        let (a, b, e) = (states[p], states[p + 1], events[p]);
        assert(world_fed(a, b, e, meta));
        if e is Update && !is_stale(a.generation, e) {
            let inner = choose|inner: Seq<CatalogModel>| #[trigger]
                tables_through(inner, meta, rows_of(e)) && inner.first() == a.catalog && inner.last() == b.catalog;
            lemma_tables_keep_catalog(inner, meta, rows_of(e), inner.len() - 1);
        }
    }
}

/// Once all rows are there, rows that change are shown at once, in the store and
/// on the maps, and those who watch are told. Rows that the mirror sends anew are
/// collected aside, and what is shown does not change.
pub proof fn law_changes_are_shown_at_once(
    a: FedState,
    b: FedState,
    generation: u64,
    is_seed: bool,
    tables: Vec<LiveTable>,
    now: i64,
    cols: ColMaps,
)
    requires
        fed(a, b, FeedEvent::Update { generation, is_seed, tables }, now, cols),
        !a.worker.seeding,
        generation == a.worker.generation,
    ensures
        !is_seed ==> {
            &&& b.worker == a.worker
            &&& rows_applied(a.rows.shown@, b.rows.shown@, cols, tables@)
            &&& b.rows.staging == a.rows.staging
            &&& a.worker.phase is Live ==> (a.worker.meta matches Some(m) ==> update_taken(
                a.grid,
                b.grid,
                m,
                tables@,
                now,
            ))
            &&& !(a.worker.phase is Live) ==> b.grid == a.grid
        },
        is_seed ==> {
            &&& b.rows.shown == a.rows.shown
            &&& b.rows.hub == a.rows.hub
            &&& b.grid == a.grid
            &&& b.worker.seeding
        },
{
    let e = FeedEvent::Update { generation, is_seed, tables };
    assert(rows_of(e) == tables@);
    if let (Some(m), true) = (a.worker.meta, a.worker.phase is Live && !is_seed) {
        let r = choose|r: Result<(), DecodeError>|
            maps_carried(RoadsStep::Apply, a.grid, b.grid, m, rows_of(e), now, r);
        assert(update_applied(a.grid, b.grid, m, tables@, now, r));
    }
}

/// In a table of the catalogues, a row goes before another one comes.
pub proof fn law_catalogue_rows_go_before_others_come(
    before: CatalogModel,
    after: CatalogModel,
    meta: RoadsTableMeta,
    t: LiveTable,
)
    requires
        catalog_applied(before, after, meta, t),
        t.deletes@.len() == 1,
        t.inserts@.len() == 1,
    ensures
        exists|middle: CatalogModel|
            #![trigger global_gone(before, middle, meta, t.name@, t.deletes@[0])]
            global_gone(before, middle, meta, t.name@, t.deletes@[0]) && global_came(
                middle,
                after,
                meta,
                t.name@,
                t.inserts@[0],
            ),
{
    let states = choose|states: Seq<CatalogModel>| #[trigger]
        catalog_through(states, meta, t) && states.first() == before && states.last() == after;
    assert(global_gone(states[0], states[1], meta, t.name@, t.deletes@[0]));
    assert(global_came(states[1], states[2], meta, t.name@, t.inserts@[0]));
    assert(global_gone(before, states[1], meta, t.name@, t.deletes@[0]));
}

} // verus!
