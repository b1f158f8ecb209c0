//! What the rows of a region tell those who watch it: memberships, and the keys
//! that changed rows touch.

use vstd::prelude::*;

use crate::bitme::hub::LiveTable;
use crate::bitme::region_rows::{
    change_at, changes_in, decode_region_row, reads_region, region_error, region_row_fits, table_fits, tables_done,
    RegionRow, StoreModel,
};
use crate::bitme::region_store::RegionStore;
use crate::decode::columns::ColMaps;
use crate::feed::StoreStep;
use crate::interest::{
    law_a_batch_notifies_its_keys_once, law_memberships_last_until_they_end,
    law_rosters_of_collected_players_are_notified, next, touched, BatchModel, InterestHub, InterestModel, Topic,
    TouchBatch,
};
use crate::roads::apply::RowInput;

verus! {

/// A hub, and the keys that an update touched so far.
#[verifier::ext_equal]
pub struct Touching {
    pub hub: InterestModel,
    pub batch: BatchModel,
}

impl Touching {
    /// What a row that came or went makes of it. A membership begins or ends,
    /// and the roster of the claim is touched; who signs in or out touches the
    /// rosters of their claims. Keys are collected where somebody watches.
    pub open spec fn after_row(self, row: RegionRow, came: bool, collect: bool) -> Touching {
        match row {
            RegionRow::Member(r) => Touching {
                hub: if came {
                    self.hub.with_member(r.player_entity_id, r.claim_entity_id)
                } else {
                    self.hub.without_member(r.player_entity_id, r.claim_entity_id)
                },
                batch: if collect {
                    BatchModel {
                        claim_members: touched(
                            self.batch.claim_members,
                            self.hub,
                            Topic::ClaimMembers,
                            r.claim_entity_id,
                        ),
                        ..self.batch
                    }
                } else {
                    self.batch
                },
            },
            RegionRow::State(r) => if collect && r.entity_id != 0 {
                Touching {
                    batch: BatchModel { member_players: self.batch.member_players.push(r.entity_id), ..self.batch },
                    ..self
                }
            } else {
                self
            },
            _ => self,
        }
    }
}

/// Whether a row came or went. A row that cannot be read tells nothing.
pub open spec fn row_told(
    before: Touching,
    after: Touching,
    cols: ColMaps,
    table: Seq<char>,
    input: RowInput,
    came: bool,
    collect: bool,
) -> bool {
    match input.cells {
        Some(c) => match region_error(cols, table, c@) {
            Some(_) => after == before,
            None => exists|row: RegionRow| #[trigger]
                reads_region(cols, table, c@, row) && after == before.after_row(row, came, collect),
        },
        None => after == before,
    }
}

/// Whether the first `n` rows of a table were told in turn.
pub open spec fn table_through(states: Seq<Touching>, cols: ColMaps, t: LiveTable, n: int, collect: bool) -> bool {
    &&& states.len() == n + 1
    &&& forall|i: int|
        0 <= i < n ==> row_told(
            #[trigger] states[i],
            states[i + 1],
            cols,
            t.name@,
            change_at(t, i).0,
            change_at(t, i).1,
            collect,
        )
}

/// Whether the rows of a table were told.
pub open spec fn table_told(before: Touching, after: Touching, cols: ColMaps, t: LiveTable, collect: bool) -> bool {
    exists|states: Seq<Touching>| #[trigger]
        table_through(states, cols, t, changes_in(t), collect) && states.first() == before && states.last() == after
}

/// Whether the first `n` tables of an update were told in turn.
pub open spec fn update_through(
    states: Seq<Touching>,
    cols: ColMaps,
    tables: Seq<LiveTable>,
    n: int,
    collect: bool,
) -> bool {
    &&& states.len() == n + 1
    &&& forall|i: int|
        0 <= i < n ==> table_told(#[trigger] states[i], states[i + 1], cols, tables[i], collect)
}

/// Whether the rows of an update were told.
pub open spec fn update_told(
    before: Touching,
    after: Touching,
    cols: ColMaps,
    tables: Seq<LiveTable>,
    collect: bool,
) -> bool {
    exists|states: Seq<Touching>| #[trigger]
        update_through(states, cols, tables, tables.len() as int, collect) && states.first() == before && states.last()
            == after
}

/// Tells a row that came or went.
fn tell_row(
    cols: &ColMaps,
    table: &str,
    input: &RowInput,
    came: bool,
    hub: &mut InterestHub,
    batch: &mut TouchBatch,
    collect: bool,
)
    requires
        old(hub).wf(),
        input.cells matches Some(c) ==> region_row_fits(*cols, table@, c@.len()),
    ensures
        final(hub).wf(),
        row_told(
            (Touching { hub: old(hub)@, batch: old(batch)@ }),
            (Touching { hub: final(hub)@, batch: final(batch)@ }),
            *cols,
            table@,
            *input,
            came,
            collect,
        ),
{
    let cells = match &input.cells {
        Some(c) => c,
        None => {
            return ;
        },
    };
    let row = match decode_region_row(cols, table, cells.as_slice()) {
        Ok(row) => row,
        Err(_) => {
            return ;
        },
    };
    match &row {
        RegionRow::Member(r) => {
            if collect {
                batch.claim_members(hub, r.claim_entity_id);
            }
            if came {
                hub.note_member(r.player_entity_id, r.claim_entity_id);
            } else {
                hub.forget_member(r.player_entity_id, r.claim_entity_id);
            }
        },
        RegionRow::State(r) => {
            if collect {
                batch.member_player(r.entity_id);
            }
        },
        _ => {},
    }
    proof {
        let before = Touching { hub: old(hub)@, batch: old(batch)@ };
        let after = Touching { hub: hub@, batch: batch@ };
        assert(after =~= before.after_row(row, came, collect));
    }
}

/// One more row of a table.
proof fn lemma_one_more(states: Seq<Touching>, cols: ColMaps, t: LiveTable, n: int, collect: bool, after: Touching)
    requires
        n >= 0,
        table_through(states, cols, t, n, collect),
        row_told(states.last(), after, cols, t.name@, change_at(t, n).0, change_at(t, n).1, collect),
    ensures
        table_through(states.push(after), cols, t, n + 1, collect),
{
    let more = states.push(after);
    assert forall|i: int| 0 <= i < n + 1 implies row_told(
        #[trigger] more[i],
        more[i + 1],
        cols,
        t.name@,
        change_at(t, i).0,
        change_at(t, i).1,
        collect,
    ) by {
        if i < n {
            assert(more[i] == states[i] && more[i + 1] == states[i + 1]);
        }
    }
}

/// Tells the rows of a table: those that went, then those that came.
fn tell_table(cols: &ColMaps, t: &LiveTable, hub: &mut InterestHub, batch: &mut TouchBatch, collect: bool)
    requires
        old(hub).wf(),
        table_fits(*cols, *t),
    ensures
        final(hub).wf(),
        table_told(
            (Touching { hub: old(hub)@, batch: old(batch)@ }),
            (Touching { hub: final(hub)@, batch: final(batch)@ }),
            *cols,
            *t,
            collect,
        ),
{
    let ghost first = Touching { hub: hub@, batch: batch@ };
    let ghost mut states: Seq<Touching> = seq![first];
    let mut i: usize = 0;
    while i < t.deletes.len()
        invariant
            hub.wf(),
            table_fits(*cols, *t),
            i <= t.deletes@.len(),
            table_through(states, *cols, *t, i as int, collect),
            states.first() == first,
            states.last() == (Touching { hub: hub@, batch: batch@ }),
        decreases t.deletes.len() - i,
    {
        assert(change_at(*t, i as int) == (t.deletes@[i as int], false));
        tell_row(cols, t.name.as_str(), &t.deletes[i], false, hub, batch, collect);
        proof {
            let now = Touching { hub: hub@, batch: batch@ };
            lemma_one_more(states, *cols, *t, i as int, collect, now);
            states = states.push(now);
        }
        i += 1;
    }
    let ghost d = i as int;
    let mut j: usize = 0;
    while j < t.inserts.len()
        invariant
            hub.wf(),
            table_fits(*cols, *t),
            d == t.deletes@.len(),
            j <= t.inserts@.len(),
            table_through(states, *cols, *t, d + j, collect),
            states.first() == first,
            states.last() == (Touching { hub: hub@, batch: batch@ }),
        decreases t.inserts.len() - j,
    {
        assert(change_at(*t, d + j) == (t.inserts@[j as int], true));
        tell_row(cols, t.name.as_str(), &t.inserts[j], true, hub, batch, collect);
        proof {
            let now = Touching { hub: hub@, batch: batch@ };
            lemma_one_more(states, *cols, *t, d + j, collect, now);
            states = states.push(now);
        }
        j += 1;
    }
    assert(table_through(states, *cols, *t, changes_in(*t), collect));
}

/// Tells the rows of an update, table by table.
fn tell_tables(cols: &ColMaps, tables: &[LiveTable], hub: &mut InterestHub, batch: &mut TouchBatch, collect: bool)
    requires
        old(hub).wf(),
        forall|i: int| 0 <= i < tables@.len() ==> table_fits(*cols, #[trigger] tables@[i]),
    ensures
        final(hub).wf(),
        update_told(
            (Touching { hub: old(hub)@, batch: old(batch)@ }),
            (Touching { hub: final(hub)@, batch: final(batch)@ }),
            *cols,
            tables@,
            collect,
        ),
{
    let ghost first = Touching { hub: hub@, batch: batch@ };
    let ghost mut states: Seq<Touching> = seq![first];
    let mut i: usize = 0;
    while i < tables.len()
        invariant
            hub.wf(),
            forall|k: int| 0 <= k < tables@.len() ==> table_fits(*cols, #[trigger] tables@[k]),
            i <= tables@.len(),
            update_through(states, *cols, tables@, i as int, collect),
            states.first() == first,
            states.last() == (Touching { hub: hub@, batch: batch@ }),
        decreases tables.len() - i,
    {
        tell_table(cols, &tables[i], hub, batch, collect);
        proof {
            let was = states;
            states = states.push(Touching { hub: hub@, batch: batch@ });
            assert forall|k: int| 0 <= k < i + 1 implies table_told(
                #[trigger] states[k],
                states[k + 1],
                *cols,
                tables@[k],
                collect,
            ) by {
                if k < i {
                    assert(states[k] == was[k] && states[k + 1] == was[k + 1]);
                }
            }
        }
        i += 1;
    }
    assert(update_through(states, *cols, tables@, tables@.len() as int, collect));
}

/// Whether an update of a region that is live reached the hub. Where nobody
/// watches anything, only memberships are kept; otherwise every key that the
/// rows touched is notified, once, when all rows are in place.
pub open spec fn hub_told(
    before: InterestModel,
    after: InterestModel,
    cols: ColMaps,
    tables: Seq<LiveTable>,
    watched: bool,
) -> bool {
    let start = Touching { hub: before, batch: BatchModel::empty() };
    exists|told: Touching| #[trigger]
        update_told(start, told, cols, tables, watched) && if watched {
            exists|sorted: BatchModel| #[trigger] sorted.is_sorted_form(told.batch) && after == sorted.flushed(told.hub)
        } else {
            after == told.hub
        }
}

/// Applies an update to the rows of a region that is live, and tells those who
/// watch.
pub fn apply_live_update(store: &mut RegionStore, cols: &ColMaps, tables: &[LiveTable], hub: &mut InterestHub)
    requires
        old(store).wf(),
        old(hub).wf(),
        forall|i: int| 0 <= i < tables@.len() ==> table_fits(*cols, #[trigger] tables@[i]),
    ensures
        final(store).wf(),
        final(hub).wf(),
        rows_applied(old(store)@, final(store)@, *cols, tables@),
        hub_told(old(hub)@, final(hub)@, *cols, tables@, old(hub)@.leases > 0),
{
    let collect: bool = hub.has_subscribers();
    store.apply_tables(cols, tables);
    let mut batch = TouchBatch::new();
    let ghost start = Touching { hub: hub@, batch: BatchModel::empty() };
    assert(batch@ =~= BatchModel::empty());
    tell_tables(cols, tables, hub, &mut batch, collect);
    let ghost told = Touching { hub: hub@, batch: batch@ };
    assert(update_told(start, told, *cols, tables@, collect));
    if collect {
        batch.flush(hub);
        proof {
            let sorted = choose|sorted: BatchModel| #[trigger]
                sorted.is_sorted_form(told.batch) && hub@ == sorted.flushed(told.hub);
            assert(sorted.is_sorted_form(told.batch) && hub@ == sorted.flushed(told.hub));
            assert(hub_told(start.hub, hub@, *cols, tables@, true));
        }
    } else {
        assert(hub_told(start.hub, hub@, *cols, tables@, false));
    }
}

/// Empties the rows of a region that starts over. The memberships that they
/// told are kept for [`finalize`].
pub fn clear_store(shown: &mut RegionStore, left: &mut Vec<(u64, u64)>)
    requires
        old(shown).wf(),
    ensures
        final(shown).wf(),
        final(shown)@ == StoreModel::empty(old(shown).region),
        final(left)@ == old(left)@ + old(shown).member_pairs(),
{
    let mut pairs = shown.player_claim_pairs();
    left.append(&mut pairs);
    *shown = RegionStore::empty(shown.region);
    assert(shown@ =~= StoreModel::empty(old(shown).region));
}

/// Puts the rows of a region that were collected in place of those that are
/// shown, and its memberships in place of those that the hub has of it: the
/// shown ones, and those of rows that were cleared before.
pub fn finalize(shown: &mut RegionStore, staging: RegionStore, left: &mut Vec<(u64, u64)>, hub: &mut InterestHub)
    requires
        old(shown).wf(),
        staging.wf(),
        old(hub).wf(),
    ensures
        final(shown).wf(),
        final(shown)@ == (StoreModel { ready: true, ..staging@ }),
        final(left)@.len() == 0,
        final(hub).wf(),
        ({
            let before = old(left)@ + old(shown).member_pairs();
            let after = staging.member_pairs();
            final(hub)@ == old(hub)@.without_members(before, before.len()).with_members(after, after.len())
        }),
{
    let mut done = staging;
    done.ready = true;
    assert(done.member_pairs() =~= staging.member_pairs());
    assert(done@ =~= (StoreModel { ready: true, ..staging@ }));
    let mut before = shown.player_claim_pairs();
    let after = done.player_claim_pairs();
    let mut old_pairs: Vec<(u64, u64)> = Vec::new();
    std::mem::swap(&mut old_pairs, left);
    old_pairs.append(&mut before);
    hub.replace_region_members(old_pairs.as_slice(), after.as_slice());
    *shown = done;
}

/// Whether an update was applied to rows.
pub open spec fn rows_applied(before: StoreModel, after: StoreModel, cols: ColMaps, tables: Seq<LiveTable>) -> bool {
    exists|states: Seq<StoreModel>| #[trigger]
        tables_done(states, cols, tables, tables.len() as int) && states.first() == before && states.last() == after
}

/// The rows of a region: those that are shown, those that are being collected,
/// the memberships of rows that were cleared, and the hub that watches.
pub struct RowsState {
    pub shown: RegionStore,
    pub staging: RegionStore,
    pub left: Seq<(u64, u64)>,
    pub hub: InterestModel,
}

/// Whether what a worker asked for was done with the rows of its region.
pub open spec fn carried(
    step: StoreStep,
    a: RowsState,
    b: RowsState,
    cols: ColMaps,
    tables: Seq<LiveTable>,
) -> bool {
    match step {
        StoreStep::Nothing => b == a,
        StoreStep::Clear => {
            &&& b.shown@ == StoreModel::empty(a.shown.region)
            &&& b.staging@ == StoreModel::empty(a.staging.region)
            &&& b.left == a.left + a.shown.member_pairs()
            &&& b.hub == a.hub
        },
        StoreStep::Publish => {
            let before = a.left + a.shown.member_pairs();
            let after = a.staging.member_pairs();
            &&& b.shown@ == (StoreModel { ready: true, ..a.staging@ })
            &&& b.staging@ == StoreModel::empty(a.staging.region)
            &&& b.left.len() == 0
            &&& b.hub == a.hub.without_members(before, before.len()).with_members(after, after.len())
        },
        StoreStep::CollectAfresh => {
            &&& b.shown == a.shown
            &&& rows_applied(StoreModel::empty(a.staging.region), b.staging@, cols, tables)
            &&& b.left == a.left
            &&& b.hub == a.hub
        },
        StoreStep::Collect => {
            &&& b.shown == a.shown
            &&& rows_applied(a.staging@, b.staging@, cols, tables)
            &&& b.left == a.left
            &&& b.hub == a.hub
        },
        StoreStep::Apply => {
            &&& rows_applied(a.shown@, b.shown@, cols, tables)
            &&& b.staging == a.staging
            &&& b.left == a.left
            &&& hub_told(a.hub, b.hub, cols, tables, a.hub.leases > 0)
        },
    }
}

/// Does what a worker asks for with the rows of its region: those that are
/// shown, those that are being collected, and the memberships that the hub has
/// of them.
pub fn carry_out(
    step: StoreStep,
    shown: &mut RegionStore,
    staging: &mut RegionStore,
    left: &mut Vec<(u64, u64)>,
    cols: &ColMaps,
    tables: &[LiveTable],
    hub: &mut InterestHub,
)
    requires
        old(shown).wf(),
        old(staging).wf(),
        old(hub).wf(),
        forall|i: int| 0 <= i < tables@.len() ==> table_fits(*cols, #[trigger] tables@[i]),
    ensures
        final(shown).wf(),
        final(staging).wf(),
        final(hub).wf(),
        carried(
            step,
            (RowsState { shown: *old(shown), staging: *old(staging), left: old(left)@, hub: old(hub)@ }),
            (RowsState { shown: *final(shown), staging: *final(staging), left: final(left)@, hub: final(hub)@ }),
            *cols,
            tables@,
        ),
{
    match step {
        StoreStep::Nothing => {},
        StoreStep::Clear => {
            clear_store(shown, left);
            *staging = RegionStore::empty(staging.region);
            assert(staging@ =~= StoreModel::empty(old(staging).region));
        },
        StoreStep::Publish => {
            let mut done = RegionStore::empty(staging.region);
            assert(done@ =~= StoreModel::empty(old(staging).region));
            std::mem::swap(&mut done, staging);
            finalize(shown, done, left, hub);
        },
        StoreStep::CollectAfresh => {
            *staging = RegionStore::empty(staging.region);
            assert(staging@ =~= StoreModel::empty(old(staging).region));
            staging.apply_tables(cols, tables);
        },
        StoreStep::Collect => {
            staging.apply_tables(cols, tables);
        },
        StoreStep::Apply => {
            apply_live_update(shown, cols, tables, hub);
        },
    }
}

/// Whether a hub has a membership.
pub open spec fn has_member(hub: InterestModel, player: u64, claim: u64) -> bool {
    hub.claims_of(player).contains(claim)
}

/// What ending memberships leaves.
proof fn lemma_without(hub: InterestModel, edges: Seq<(u64, u64)>, n: nat, player: u64, claim: u64)
    requires
        n <= edges.len(),
        player != 0,
        claim != 0,
    ensures
        has_member(hub.without_members(edges, n), player, claim) <==> has_member(hub, player, claim)
            && !edges.take(n as int).contains((player, claim)),
    decreases n,
{
    if n > 0 {
        let p = (n - 1) as nat;
        lemma_without(hub, edges, p, player, claim);
        let (few, all) = (edges.take(p as int), edges.take(n as int));
        assert(all =~= few.push(edges[n - 1]));
        assert(all[n - 1] == edges[n - 1]);
        if few.contains((player, claim)) {
            let k = choose|k: int| 0 <= k < few.len() && few[k] == (player, claim);
            assert(all[k] == (player, claim));
        }
        if all.contains((player, claim)) && edges[n - 1] != (player, claim) {
            let k = choose|k: int| 0 <= k < all.len() && all[k] == (player, claim);
            assert(few[k] == (player, claim));
        }
    }
}

/// What beginning memberships adds.
proof fn lemma_with(hub: InterestModel, edges: Seq<(u64, u64)>, n: nat, player: u64, claim: u64)
    requires
        n <= edges.len(),
        player != 0,
        claim != 0,
    ensures
        has_member(hub.with_members(edges, n), player, claim) <==> has_member(hub, player, claim) || edges.take(
            n as int,
        ).contains((player, claim)),
    decreases n,
{
    if n > 0 {
        let p = (n - 1) as nat;
        lemma_with(hub, edges, p, player, claim);
        let (few, all) = (edges.take(p as int), edges.take(n as int));
        assert(all =~= few.push(edges[n - 1]));
        assert(all[n - 1] == edges[n - 1]);
        if few.contains((player, claim)) {
            let k = choose|k: int| 0 <= k < few.len() && few[k] == (player, claim);
            assert(all[k] == (player, claim));
        }
        if all.contains((player, claim)) && edges[n - 1] != (player, claim) {
            let k = choose|k: int| 0 <= k < all.len() && all[k] == (player, claim);
            assert(few[k] == (player, claim));
        }
    }
}

/// Swapping the memberships of a region leaves the hub with those that the new
/// rows tell, and of the others with those that the old rows did not tell.
pub proof fn law_swapped_members_follow_the_rows(
    hub: InterestModel,
    before: Seq<(u64, u64)>,
    after: Seq<(u64, u64)>,
    player: u64,
    claim: u64,
)
    requires
        player != 0,
        claim != 0,
    ensures
        has_member(hub.without_members(before, before.len()).with_members(after, after.len()), player, claim)
            <==> after.contains((player, claim)) || has_member(hub, player, claim) && !before.contains((player, claim)),
{
    let middle = hub.without_members(before, before.len());
    lemma_without(hub, before, before.len(), player, claim);
    lemma_with(middle, after, after.len(), player, claim);
    assert(before.take(before.len() as int) =~= before);
    assert(after.take(after.len() as int) =~= after);
}

/// A row of a member that came makes them a member of the claim, and one that
/// went ends it; the roster of the claim is among the keys that were touched,
/// if somebody watches it. A row of whether a player is signed in has the
/// rosters of their claims told. Where nothing is collected, no key is touched.
pub proof fn law_rows_touch_their_rosters(t: Touching, row: RegionRow, came: bool, collect: bool, id: u64)
    ensures
        ({
            let after = t.after_row(row, came, collect);
            &&& !collect ==> after.batch == t.batch
            &&& match row {
                RegionRow::Member(r) => {
                    &&& r.player_entity_id != 0 && r.claim_entity_id != 0 ==> (has_member(
                        after.hub,
                        r.player_entity_id,
                        r.claim_entity_id,
                    ) <==> came)
                    &&& after.hub.watched == t.hub.watched
                    &&& after.batch.member_players == t.batch.member_players
                    &&& collect && r.claim_entity_id != 0 && t.hub.is_watched(Topic::ClaimMembers, r.claim_entity_id)
                        ==> after.batch.claim_members.contains(r.claim_entity_id)
                    &&& id != r.claim_entity_id ==> (after.batch.claim_members.contains(id)
                        <==> t.batch.claim_members.contains(id))
                },
                RegionRow::State(r) => {
                    &&& after.hub == t.hub
                    &&& collect && r.entity_id != 0 ==> after.batch.member_players.contains(r.entity_id)
                    &&& id != r.entity_id ==> (after.batch.member_players.contains(id)
                        <==> t.batch.member_players.contains(id))
                    &&& after.batch.claim_members == t.batch.claim_members
                },
                _ => after == t,
            }
        }),
{
    match row {
        RegionRow::Member(r) => {
            if r.player_entity_id != 0 && r.claim_entity_id != 0 {
                law_memberships_last_until_they_end(
                    t.hub,
                    r.player_entity_id,
                    r.claim_entity_id,
                    (r.player_entity_id, r.claim_entity_id),
                );
            }
            let s = t.batch.claim_members;
            let more = s.push(r.claim_entity_id);
            assert(more[s.len() as int] == r.claim_entity_id);
            if s.contains(id) {
                let k = choose|k: int| 0 <= k < s.len() && s[k] == id;
                assert(more[k] == id);
            }
        },
        RegionRow::State(r) => {
            let s = t.batch.member_players;
            let more = s.push(r.entity_id);
            assert(more[s.len() as int] == r.entity_id);
            if s.contains(id) {
                let k = choose|k: int| 0 <= k < s.len() && s[k] == id;
                assert(more[k] == id);
            }
        },
        _ => {},
    }
}

/// Whether what a row tells reached a hub: a member that came or went is one or
/// none, and their claim is told of it; so is every claim of a player who signed
/// in or out.
pub open spec fn row_reached(
    before: InterestModel,
    after: InterestModel,
    row: RegionRow,
    came: bool,
    claim: u64,
) -> bool {
    let told = before.is_watched(Topic::ClaimMembers, claim) ==> after.watched[(Topic::ClaimMembers, claim)].generation
        == next(before.watched[(Topic::ClaimMembers, claim)].generation);
    match row {
        RegionRow::Member(r) => r.player_entity_id != 0 && r.claim_entity_id == claim ==> {
            &&& has_member(after, r.player_entity_id, claim) <==> came
            &&& told
        },
        RegionRow::State(r) => r.entity_id != 0 && has_member(before, r.entity_id, claim) ==> told,
        _ => true,
    }
}

/// A row that came or went alone is told at once to those who watch the claims
/// that it is about. Where nobody watches anything, nobody is told.
pub proof fn law_a_row_is_told_at_once(
    before: InterestModel,
    after: InterestModel,
    cols: ColMaps,
    t: LiveTable,
    watched: bool,
    claim: u64,
)
    requires
        hub_told(before, after, cols, seq![t], watched),
        changes_in(t) == 1,
        change_at(t, 0).0.cells is Some,
        region_error(cols, t.name@, change_at(t, 0).0.cells->0@) is None,
        claim != 0,
    ensures
        !watched ==> after.watched == before.watched,
        watched ==> exists|row: RegionRow| #[trigger]
            reads_region(cols, t.name@, change_at(t, 0).0.cells->0@, row) && row_reached(
                before,
                after,
                row,
                change_at(t, 0).1,
                claim,
            ),
{
    let start = Touching { hub: before, batch: BatchModel::empty() };
    let one = choose|told: Touching| #[trigger]
        update_told(start, told, cols, seq![t], watched) && if watched {
            exists|sorted: BatchModel| #[trigger] sorted.is_sorted_form(told.batch) && after == sorted.flushed(told.hub)
        } else {
            after == told.hub
        };
    let states = choose|states: Seq<Touching>| #[trigger]
        update_through(states, cols, seq![t], 1, watched) && states.first() == start && states.last() == one;
    assert(table_told(states[0], states[1], cols, seq![t][0], watched));
    let rows = choose|rows: Seq<Touching>| #[trigger]
        table_through(rows, cols, t, changes_in(t), watched) && rows.first() == states[0] && rows.last() == states[1];
    let came = change_at(t, 0).1;
    let cells = change_at(t, 0).0.cells->0@;
    assert(row_told(rows[0], rows[1], cols, t.name@, change_at(t, 0).0, came, watched));
    let row = choose|row: RegionRow| #[trigger]
        reads_region(cols, t.name@, cells, row) && rows[1] == start.after_row(row, came, watched);
    assert(one == start.after_row(row, came, watched));
    if let RegionRow::Member(r) = row {
        if r.player_entity_id != 0 && r.claim_entity_id != 0 {
            law_memberships_last_until_they_end(before, r.player_entity_id, r.claim_entity_id, (0, 0));
        }
    }
    law_rows_touch_their_rosters(start, row, came, watched, claim);
    if watched {
        let sorted = choose|sorted: BatchModel| #[trigger]
            sorted.is_sorted_form(one.batch) && after == sorted.flushed(one.hub);
        if before.is_watched(Topic::ClaimMembers, claim) {
            match row {
                RegionRow::Member(r) => {
                    if r.player_entity_id != 0 && r.claim_entity_id == claim {
                        law_a_batch_notifies_its_keys_once(one.hub, one.batch, sorted, Topic::ClaimMembers, claim);
                    }
                },
                RegionRow::State(r) => {
                    if r.entity_id != 0 && has_member(before, r.entity_id, claim) {
                        lemma_single(one.batch, sorted, r.entity_id);
                        law_rosters_of_collected_players_are_notified(before, sorted, r.entity_id, claim);
                    }
                },
                _ => {},
            }
        } else {
            match row {
                RegionRow::Member(r) if r.claim_entity_id == claim => {
                    lemma_nothing(sorted);
                    assert(after.member_of == one.hub.member_of);
                },
                _ => {},
            }
        }
        assert(row_reached(before, after, row, came, claim));
    }
}

/// The sorted form of an empty list is empty.
proof fn lemma_stays_empty(s: Seq<u64>)
    requires
        s.to_set() == Seq::<u64>::empty().to_set(),
    ensures
        s == Seq::<u64>::empty(),
{
    if s.len() > 0 {
        assert(s.to_set().contains(s[0]));
        assert(Seq::<u64>::empty().to_set().contains(s[0]));
    }
    assert(s =~= Seq::empty());
}

/// A batch without keys stays one, and flushing it changes nothing.
proof fn lemma_nothing(sorted: BatchModel)
    requires
        sorted.is_sorted_form(BatchModel::empty()),
    ensures
        forall|hub: InterestModel| #[trigger] sorted.flushed(hub) == hub,
{
    lemma_stays_empty(sorted.player_inv);
    lemma_stays_empty(sorted.player_housing);
    lemma_stays_empty(sorted.claim_inv);
    lemma_stays_empty(sorted.player_crafts);
    lemma_stays_empty(sorted.claim_crafts);
    lemma_stays_empty(sorted.claim_members);
    lemma_stays_empty(sorted.dim_buildings);
    lemma_stays_empty(sorted.member_players);
}

/// The sorted form of a batch of one player is that batch.
proof fn lemma_single(batch: BatchModel, sorted: BatchModel, player: u64)
    requires
        batch == (BatchModel { member_players: Seq::<u64>::empty().push(player), ..BatchModel::empty() }),
        sorted.is_sorted_form(batch),
    ensures
        sorted == (BatchModel { member_players: seq![player], ..BatchModel::empty() }),
{
    lemma_stays_empty(sorted.player_inv);
    lemma_stays_empty(sorted.player_housing);
    lemma_stays_empty(sorted.claim_inv);
    lemma_stays_empty(sorted.player_crafts);
    lemma_stays_empty(sorted.claim_crafts);
    lemma_stays_empty(sorted.claim_members);
    lemma_stays_empty(sorted.dim_buildings);
    let s = sorted.member_players;
    let b = batch.member_players;
    assert(b =~= seq![player]);
    assert(b[0] == player && b.to_set().contains(player));
    assert(s.to_set().contains(player));
    assert forall|i: int| 0 <= i < s.len() implies s[i] == player by {
        assert(s.to_set().contains(s[i]));
        assert(b.to_set().contains(s[i]));
    }
    if s.len() > 1 {
        assert(s[0] < s[1]);
    }
    assert(s =~= seq![player]);
}

} // verus!
