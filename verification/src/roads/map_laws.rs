//! Laws of the maps of a region: what each row that comes or goes shows on
//! them.

use vstd::prelude::*;

use crate::decode::rows::ResourceRow;
use crate::roads::apply::{batch_applied, chunk_of, reads_row, rows_came, rows_gone, Applied, RoadsRow, RowInput};
use crate::roads::coords::{
    in_region, in_super_grid, region_corner, CHUNKS_PER_SIDE, REGION_SIDE, SUPER_SIDE,
};
use crate::roads::decode::{ClaimStateRoadsRow, ClaimTileRow, LocationRoadsRow, PavedTileRow, TerrainChunkRow};
use crate::le_bytes::signed16;
use crate::roads::grid::{
    claim_of, law_terrain_round_trip, paving_of, terrain_elevation, terrain_water_level, terrain_word, OVERLAY_CELLS,
    TERRAIN_CELLS,
};
use crate::roads::harvestable::{
    entities_on, lemma_lifted_is_valid, lemma_put_is_valid, node_covers, HarvestModel, HarvestableCatalog, Node,
};
use crate::roads::index::{claim_slot, law_claims_keep_their_index, valid_claims, with_claim};
use crate::roads::join::{cell_number, is_side, joined_overlay, known, overlay_word, side_of, WriterModel};
use crate::roads::meta::RoadsTableMeta;
use crate::roads::resource_laws::{
    law_entities_are_what_their_rows_say, law_flood_follows_the_terrain, law_paving_is_shown_until_it_goes,
};
use crate::roads::resource_map::{content, ground_is_water, wet};
use crate::roads::store::{is_best_dimension, GridModel, RoadsRegionGrid};

verus! {

/// Whether maps are in order, as those of a region always are.
pub open spec fn in_order(m: GridModel) -> bool {
    &&& m.overlay.len() == OVERLAY_CELLS
    &&& valid_claims(m.claims)
    &&& m.harvest.valid(m.book)
    &&& m.resources.valid()
}

/// Whether a cell of the overlay is that of a world tile.
pub open spec fn is_cell_of(region: u16, tile: (i32, i32), k: int) -> bool {
    &&& 0 <= k < OVERLAY_CELLS
    &&& tile.0 == region_corner(region as int).0 + k % 7680
    &&& tile.1 == region_corner(region as int).1 + k / 7680
}

/// Whether a cell of the overlay is that of the tile of an entity.
pub open spec fn is_cell_of_entity(m: GridModel, e: u64, k: int) -> bool {
    m.place.dom().contains(e) && is_cell_of(m.region, m.place[e], k)
}

/// The paving that a cell shows of a paving type.
pub open spec fn shown_paving(tile_type: i32) -> int {
    if tile_type < 0 {
        0
    } else {
        tile_type as int % 65536
    }
}

/// Whether a claim has a number, or can be given one.
pub open spec fn has_room(claims: Seq<u64>, claim: u64) -> bool {
    claims.contains(claim) || claims.len() <= 65535
}

/// Whether nothing of the harvestable nodes differs but one entity.
pub open spec fn harvest_same_but(a: HarvestModel, b: HarvestModel, e: u64) -> bool {
    &&& forall|x: u64| x != e ==> (#[trigger] b.nodes.dom().contains(x) <==> a.nodes.dom().contains(x))
    &&& forall|x: u64| x != e && #[trigger] b.nodes.dom().contains(x) ==> b.nodes[x] == a.nodes[x]
    &&& forall|hex: (i32, i32), x: u64|
        x != e ==> (#[trigger] entities_on(b.on, hex).contains(x) <==> entities_on(a.on, hex).contains(x))
}

/// Whether an entity stands on no tile and is no harvestable node.
pub open spec fn is_nowhere(h: HarvestModel, e: u64) -> bool {
    &&& !h.nodes.dom().contains(e)
    &&& forall|hex: (i32, i32)| !(#[trigger] entities_on(h.on, hex)).contains(e)
}

/// A cell number is that of the tile.
proof fn lemma_cell(region: u16, tile: (i32, i32), k: int)
    ensures
        is_cell_of(region, tile, k) <==> cell_number(region, Some(tile)) == Some(k),
{
    if let Some(n) = cell_number(region, Some(tile)) {
        assert(0 <= n < OVERLAY_CELLS);
    }
}

/// What writing the cell of an entity changes.
proof fn lemma_joined(m: GridModel, e: u64, overlay: Seq<u32>, paving: Option<i32>, index: Option<u16>, k: int)
    requires
        overlay.len() == OVERLAY_CELLS,
        0 <= k < OVERLAY_CELLS,
    ensures
        ({
            let after = joined_overlay(overlay, m.region, known(m.place, e), paving, index);
            &&& after.len() == overlay.len()
            &&& if is_cell_of_entity(m, e, k) {
                &&& claim_of(after[k]) == (match index {
                    Some(i) => i,
                    None => claim_of(overlay[k]),
                })
                &&& paving_of(after[k]) == (match paving {
                    Some(p) => shown_paving(p),
                    None => paving_of(overlay[k]) as int,
                })
            } else {
                after[k] == overlay[k]
            }
        }),
{
    if m.place.dom().contains(e) {
        lemma_cell(m.region, m.place[e], k);
    }
}

/// Nodes of two valid indexes that agree on an entity list it on the same tiles.
proof fn lemma_same_tiles(a: HarvestModel, b: HarvestModel, book: HarvestableCatalog, e: u64)
    requires
        a.valid(book),
        b.valid(book),
        forall|x: u64| x != e ==> (#[trigger] b.nodes.dom().contains(x) <==> a.nodes.dom().contains(x)),
        forall|x: u64| x != e && #[trigger] b.nodes.dom().contains(x) ==> b.nodes[x] == a.nodes[x],
    ensures
        harvest_same_but(a, b, e),
{
    assert forall|hex: (i32, i32), x: u64| x != e implies (#[trigger] entities_on(b.on, hex).contains(x)
        <==> entities_on(a.on, hex).contains(x)) by {
        assert(entities_on(a.on, hex).contains(x) <==> a.nodes.dom().contains(x) && node_covers(book, a.nodes[x], hex));
        assert(entities_on(b.on, hex).contains(x) <==> b.nodes.dom().contains(x) && node_covers(book, b.nodes[x], hex));
        assert(b.nodes.dom().contains(x) <==> a.nodes.dom().contains(x));
    }
}

/// After a tile of a claim went, the cell at the place of its entity belongs to
/// no claim, whatever it belonged to; its paving stays. No other cell changes,
/// and nothing else of the maps.
pub proof fn law_a_tile_that_went_is_unclaimed(m: GridModel, r: ClaimTileRow, now: i64, k: int)
    requires
        m.overlay.len() == OVERLAY_CELLS,
        0 <= k < OVERLAY_CELLS,
    ensures
        ({
            let after = m.without_row(RoadsRow::ClaimTile(r), now);
            &&& is_cell_of_entity(m, r.entity_id, k) ==> claim_of(after.overlay[k]) == 0 && paving_of(after.overlay[k])
                == paving_of(m.overlay[k])
            &&& !is_cell_of_entity(m, r.entity_id, k) ==> after.overlay[k] == m.overlay[k]
            &&& after.overlay.len() == m.overlay.len()
            &&& !after.claim.dom().contains(r.entity_id)
            &&& forall|e: u64| e != r.entity_id ==> known(after.claim, e) == #[trigger] known(m.claim, e)
            &&& after.place == m.place && after.paving == m.paving && after.claims == m.claims && after.region
                == m.region
            &&& after.terrain == m.terrain && after.harvest == m.harvest && after.resources == m.resources
            &&& after.neutral == m.neutral
        }),
{
    lemma_joined(m, r.entity_id, m.overlay, None, Some(0), k);
}

/// A tile of a claim that came and went leaves no trace in the overlay, where
/// the tile belonged to no claim before and nothing paves it by that entity.
pub proof fn law_removed_claim_leaves_no_trace(m: GridModel, r: ClaimTileRow, best: u32, now: i64)
    requires
        m.overlay.len() == OVERLAY_CELLS,
        !m.paving.dom().contains(r.entity_id),
        forall|k: int| #[trigger] is_cell_of_entity(m, r.entity_id, k) ==> claim_of(m.overlay[k]) == 0,
    ensures
        m.with_row(RoadsRow::ClaimTile(r), best, now).without_row(RoadsRow::ClaimTile(r), now).overlay == m.overlay,
{
    let there = m.with_row(RoadsRow::ClaimTile(r), best, now);
    let after = there.without_row(RoadsRow::ClaimTile(r), now);
    assert forall|k: int| 0 <= k < OVERLAY_CELLS implies after.overlay[k] == m.overlay[k] by {
        let claims = there.claims;
        lemma_joined(m, r.entity_id, m.overlay, None, Some(claim_slot(claims, r.claim_id)), k);
        lemma_joined(m, r.entity_id, there.overlay, None, Some(0), k);
        if is_cell_of_entity(m, r.entity_id, k) {
            let (a, b) = (after.overlay[k], m.overlay[k]);
            assert(overlay_word(claim_of(a), paving_of(a)) == a && overlay_word(claim_of(b), paving_of(b)) == b);
        }
    }
    assert(after.overlay =~= m.overlay);
}

/// What rows of tiles of claims that went leave.
proof fn lemma_unclaimed(m: GridModel, rows: Seq<RoadsRow>, now: i64, n: nat, i: int, k: int)
    requires
        m.overlay.len() == OVERLAY_CELLS,
        n <= rows.len(),
        forall|j: int| 0 <= j < n ==> #[trigger] rows[j] is ClaimTile,
        0 <= k < OVERLAY_CELLS,
    ensures
        ({
            let after = rows_gone(m, rows, now, n);
            &&& after.place == m.place && after.region == m.region
            &&& after.overlay.len() == OVERLAY_CELLS
            &&& paving_of(after.overlay[k]) == paving_of(m.overlay[k])
            &&& claim_of(after.overlay[k]) == 0 || claim_of(after.overlay[k]) == claim_of(m.overlay[k])
            &&& 0 <= i < n && is_cell_of_entity(m, rows[i]->ClaimTile_0.entity_id, k) ==> claim_of(after.overlay[k]) == 0
            &&& 0 <= i < n ==> !after.claim.dom().contains(rows[i]->ClaimTile_0.entity_id)
        }),
    decreases n,
{
    if n > 0 {
        let p = (n - 1) as nat;
        lemma_unclaimed(m, rows, now, p, i, k);
        let before = rows_gone(m, rows, now, p);
        assert(rows[n - 1] is ClaimTile);
        law_a_tile_that_went_is_unclaimed(before, rows[n - 1]->ClaimTile_0, now, k);
        assert(is_cell_of_entity(before, rows[n - 1]->ClaimTile_0.entity_id, k) == is_cell_of_entity(
            m,
            rows[n - 1]->ClaimTile_0.entity_id,
            k,
        ));
    }
}

/// After a batch in which tiles of claims went, each of them is unclaimed at
/// the place of its entity, and its paving is what it was.
pub proof fn law_a_batch_unclaims_what_went(
    before: GridModel,
    after: GridModel,
    meta: RoadsTableMeta,
    table: Seq<char>,
    deletes: Seq<RowInput>,
    now: i64,
    a: Applied,
    i: int,
    k: int,
)
    requires
        batch_applied(before, after, meta, table, deletes, Seq::empty(), now, Ok(()), a),
        before.overlay.len() == OVERLAY_CELLS,
        0 <= i < deletes.len(),
        forall|j: int| 0 <= j < a.gone.len() ==> #[trigger] a.gone[j] is ClaimTile,
        is_cell_of_entity(before, a.gone[i]->ClaimTile_0.entity_id, k),
    ensures
        claim_of(after.overlay[k]) == 0,
        paving_of(after.overlay[k]) == paving_of(before.overlay[k]),
        !after.claim.dom().contains(a.gone[i]->ClaimTile_0.entity_id),
{
    lemma_unclaimed(before, a.gone, now, a.gone.len(), i, k);
}

/// After a paved tile went, the cell at the place of its entity is not paved;
/// its claim stays. No other cell changes.
pub proof fn law_a_tile_that_went_is_unpaved(m: GridModel, r: PavedTileRow, now: i64, k: int)
    requires
        m.overlay.len() == OVERLAY_CELLS,
        0 <= k < OVERLAY_CELLS,
    ensures
        ({
            let after = m.without_row(RoadsRow::PavedTile(r), now);
            &&& is_cell_of_entity(m, r.entity_id, k) ==> paving_of(after.overlay[k]) == 0 && claim_of(after.overlay[k])
                == claim_of(m.overlay[k])
            &&& !is_cell_of_entity(m, r.entity_id, k) ==> after.overlay[k] == m.overlay[k]
            &&& !after.paving.dom().contains(r.entity_id)
            &&& forall|e: u64| e != r.entity_id ==> known(after.paving, e) == #[trigger] known(m.paving, e)
            &&& after.place == m.place && after.claim == m.claim && after.claims == m.claims
            &&& after.terrain == m.terrain && after.harvest == m.harvest && after.neutral == m.neutral
            &&& after.resources.nodes == m.resources.nodes
        }),
{
    lemma_joined(m, r.entity_id, m.overlay, Some(0), None, k);
}

/// Whether a cell shows what is known of an entity whose tile it is: its paving
/// and its claim, and of what is not known, what it showed before.
pub open spec fn cell_shows(before: GridModel, after: GridModel, e: u64, k: int) -> bool {
    &&& after.paving.dom().contains(e) ==> paving_of(after.overlay[k]) == shown_paving(after.paving[e])
    &&& !after.paving.dom().contains(e) ==> paving_of(after.overlay[k]) == paving_of(before.overlay[k])
    &&& after.claim.dom().contains(e) && has_room(before.claims, after.claim[e]) ==> claim_of(after.overlay[k])
        < after.claims.len() && after.claims[claim_of(after.overlay[k]) as int] == after.claim[e]
    &&& !after.claim.dom().contains(e) ==> claim_of(after.overlay[k]) == claim_of(before.overlay[k])
}

/// The cell of an entity that is written anew.
proof fn lemma_rejoined(m: GridModel, e: u64, k: int)
    requires
        m.overlay.len() == OVERLAY_CELLS,
        valid_claims(m.claims),
        0 <= k < OVERLAY_CELLS,
    ensures
        ({
            let after = m.rejoined(e);
            &&& after.overlay.len() == OVERLAY_CELLS
            &&& is_cell_of_entity(m, e, k) ==> cell_shows(m, after, e, k)
            &&& !is_cell_of_entity(m, e, k) ==> after.overlay[k] == m.overlay[k]
            &&& m.claims.is_prefix_of(after.claims)
            &&& after.place == m.place && after.paving == m.paving && after.claim == m.claim && after.region == m.region
        }),
{
    let place = known(m.place, e);
    let claims = m.rejoined(e).claims;
    let index: Option<u16> = match known(m.claim, e) {
        Some(c) => Some(claim_slot(claims, c)),
        None => None,
    };
    lemma_joined(m, e, m.overlay, known(m.paving, e), index, k);
    if let Some(c) = known(m.claim, e) {
        law_claims_keep_their_index(m.claims, c);
        if is_cell_of_entity(m, e, k) {
            lemma_cell(m.region, m.place[e], k);
            assert(claims == with_claim(m.claims, c));
            if has_room(m.claims, c) {
                if claims.contains(c) {
                    let j = choose|j: int| 0 <= j < claims.len() && claims[j] == c;
                    assert(crate::roads::index::is_claim_slot(claims, c, j));
                    crate::roads::index::lemma_claim_slot(claims, c, j);
                } else {
                    assert(m.claims.push(c)[m.claims.len() as int] == c);
                }
            }
        }
    }
}

/// After a paved tile came, the cell at the place of its entity shows its
/// paving; where the claim of the entity is known, that too. No other cell
/// changes.
pub proof fn law_a_paved_tile_is_shown(m: GridModel, r: PavedTileRow, best: u32, now: i64, k: int)
    requires
        m.overlay.len() == OVERLAY_CELLS,
        valid_claims(m.claims),
        0 <= k < OVERLAY_CELLS,
    ensures
        ({
            let after = m.with_row(RoadsRow::PavedTile(r), best, now);
            &&& after.paving.dom().contains(r.entity_id) && after.paving[r.entity_id] == r.tile_type_id
            &&& forall|e: u64| e != r.entity_id ==> known(after.paving, e) == #[trigger] known(m.paving, e)
            &&& is_cell_of_entity(m, r.entity_id, k) ==> paving_of(after.overlay[k]) == shown_paving(r.tile_type_id)
                && cell_shows(m, after, r.entity_id, k)
            &&& !is_cell_of_entity(m, r.entity_id, k) ==> after.overlay[k] == m.overlay[k]
            &&& after.place == m.place && after.claim == m.claim && m.claims.is_prefix_of(after.claims)
            &&& after.terrain == m.terrain && after.harvest == m.harvest && after.neutral == m.neutral
        }),
{
    let seen = GridModel { paving: m.paving.insert(r.entity_id, r.tile_type_id), ..m };
    lemma_rejoined(seen, r.entity_id, k);
}

/// After a tile of a claim came, the cell at the place of its entity leads to
/// the claim; where the paving of the entity is known, it is shown too. No
/// other cell changes.
pub proof fn law_a_claim_tile_is_shown(m: GridModel, r: ClaimTileRow, best: u32, now: i64, k: int)
    requires
        m.overlay.len() == OVERLAY_CELLS,
        valid_claims(m.claims),
        0 <= k < OVERLAY_CELLS,
    ensures
        ({
            let after = m.with_row(RoadsRow::ClaimTile(r), best, now);
            &&& after.claim.dom().contains(r.entity_id) && after.claim[r.entity_id] == r.claim_id
            &&& forall|e: u64| e != r.entity_id ==> known(after.claim, e) == #[trigger] known(m.claim, e)
            &&& is_cell_of_entity(m, r.entity_id, k) ==> cell_shows(m, after, r.entity_id, k)
            &&& !is_cell_of_entity(m, r.entity_id, k) ==> after.overlay[k] == m.overlay[k]
            &&& after.place == m.place && after.paving == m.paving && m.claims.is_prefix_of(after.claims)
            &&& after.terrain == m.terrain && after.harvest == m.harvest && after.neutral == m.neutral
            &&& after.resources == m.resources
        }),
{
    let seen = GridModel { claim: m.claim.insert(r.entity_id, r.claim_id), ..m };
    lemma_rejoined(seen, r.entity_id, k);
}

/// A claim is neutral just where its last row says so, and no longer when the
/// row went.
pub proof fn law_neutral_claims_follow_their_rows(m: GridModel, r: ClaimStateRoadsRow, best: u32, now: i64, claim: u64)
    ensures
        ({
            let came = m.with_row(RoadsRow::ClaimState(r), best, now);
            let gone = m.without_row(RoadsRow::ClaimState(r), now);
            &&& came.neutral.dom().contains(r.entity_id) <==> r.neutral
            &&& !gone.neutral.dom().contains(r.entity_id)
            &&& claim != r.entity_id ==> (came.neutral.dom().contains(claim) <==> m.neutral.dom().contains(claim)) && (
            gone.neutral.dom().contains(claim) <==> m.neutral.dom().contains(claim))
            &&& came.overlay == m.overlay && gone.overlay == m.overlay
            &&& came.harvest == m.harvest && gone.harvest == m.harvest
            &&& came.resources == m.resources && gone.resources == m.resources
        }),
{
}

/// A node that moved or lost its place.
proof fn lemma_relocated(h: HarvestModel, book: HarvestableCatalog, e: u64, to: Option<(i32, i32)>)
    requires
        h.valid(book),
    ensures
        h.relocated(book, e, to).valid(book),
        harvest_same_but(h, h.relocated(book, e, to), e),
        h.relocated(book, e, to).nodes.dom().contains(e) <==> h.nodes.dom().contains(e),
        h.nodes.dom().contains(e) ==> h.relocated(book, e, to).nodes[e] == (Node { loc: to, ..h.nodes[e] }),
{
    if h.nodes.dom().contains(e) && h.nodes[e].loc != to {
        lemma_lifted_is_valid(h, book, e);
        lemma_put_is_valid(h.lifted(book, e), book, e, Node { loc: to, ..h.nodes[e] });
    }
    lemma_same_tiles(h, h.relocated(book, e, to), book, e);
}

/// After the place of an entity in the overworld came, the entity is there: the
/// cell of the tile shows what is known of it, and a harvestable node of it
/// stands on the tiles that it covers from there. No other cell changes, and no
/// other node. A place in another dimension changes nothing.
pub proof fn law_entities_are_where_their_places_say(m: GridModel, r: LocationRoadsRow, best: u32, now: i64, k: int)
    requires
        in_order(m),
        0 <= k < OVERLAY_CELLS,
    ensures
        ({
            let after = m.with_row(RoadsRow::Location(r), best, now);
            let e = r.entity_id;
            if r.dimension != 1 {
                after == m
            } else {
                &&& after.place.dom().contains(e) && after.place[e] == (r.x, r.z)
                &&& forall|x: u64| x != e ==> known(after.place, x) == #[trigger] known(m.place, x)
                &&& is_cell_of(m.region, (r.x, r.z), k) ==> cell_shows(m, after, e, k)
                &&& !is_cell_of(m.region, (r.x, r.z), k) ==> after.overlay[k] == m.overlay[k]
                &&& harvest_same_but(m.harvest, after.harvest, e)
                &&& after.harvest.valid(m.book)
                &&& after.harvest.nodes.dom().contains(e) <==> m.harvest.nodes.dom().contains(e)
                &&& m.harvest.nodes.dom().contains(e) ==> after.harvest.nodes[e] == (Node {
                    loc: Some((r.x, r.z)),
                    ..m.harvest.nodes[e]
                })
                &&& after.resources.nodes.dom().contains(e) <==> m.resources.nodes.dom().contains(e)
                &&& m.resources.nodes.dom().contains(e) ==> after.resources.nodes[e].loc == Some((r.x, r.z))
                &&& after.paving == m.paving && after.claim == m.claim && after.terrain == m.terrain
            }
        }),
{
    if r.dimension == 1 {
        let e = r.entity_id;
        lemma_relocated(m.harvest, m.book, e, Some((r.x, r.z)));
        let moved = GridModel {
            place: m.place.insert(e, (r.x, r.z)),
            harvest: m.harvest.relocated(m.book, e, Some((r.x, r.z))),
            resources: crate::roads::apply::resource_moved(m.resources, e, (r.x, r.z)),
            ..m
        };
        lemma_rejoined(moved, e, k);
        assert(moved.rejoined(e).resources == moved.resources);
    }
}

/// After the place of an entity in the overworld went, it is on no tile: a
/// harvestable node of it has no place. No other node changes. The overlay
/// stays.
pub proof fn law_entities_without_a_place_are_on_no_tile(m: GridModel, r: LocationRoadsRow, now: i64, hex: (i32, i32))
    requires
        in_order(m),
    ensures
        ({
            let after = m.without_row(RoadsRow::Location(r), now);
            let e = r.entity_id;
            &&& after.overlay == m.overlay && after.paving == m.paving && after.claim == m.claim
            &&& if r.dimension != 1 {
                after.place == m.place && after.harvest == m.harvest && after.resources == m.resources
            } else {
                &&& !after.place.dom().contains(e)
                &&& forall|x: u64| x != e ==> known(after.place, x) == #[trigger] known(m.place, x)
                &&& !entities_on(after.harvest.on, hex).contains(e)
                &&& harvest_same_but(m.harvest, after.harvest, e)
                &&& after.harvest.nodes.dom().contains(e) <==> m.harvest.nodes.dom().contains(e)
                &&& m.harvest.nodes.dom().contains(e) ==> after.harvest.nodes[e].resource_id
                    == m.harvest.nodes[e].resource_id && after.harvest.nodes[e].loc is None
                &&& m.resources.nodes.dom().contains(e) ==> after.resources.nodes.dom().contains(e)
                    && after.resources.nodes[e].loc is None && after.resources.nodes[e].owned.len() == 0
            }
        }),
{
    if r.dimension == 1 {
        lemma_relocated(m.harvest, m.book, r.entity_id, None);
        let after = m.without_row(RoadsRow::Location(r), now);
        assert(entities_on(after.harvest.on, hex).contains(r.entity_id) <==> after.harvest.nodes.dom().contains(
            r.entity_id,
        ) && node_covers(m.book, after.harvest.nodes[r.entity_id], hex));
    }
}

/// After a resource came whose type is harvestable, its entity is a node of that
/// type. It stands where the entity is, on the tiles that it covers from there
/// and on no other. A type that is not harvestable leaves no node. No other node
/// changes.
pub proof fn law_resources_stand_where_they_are(m: GridModel, r: ResourceRow, best: u32, now: i64, hex: (i32, i32))
    requires
        in_order(m),
    ensures
        ({
            let after = m.with_row(RoadsRow::Resource(r), best, now);
            let e = r.entity_id;
            &&& harvest_same_but(m.harvest, after.harvest, e)
            &&& after.overlay == m.overlay && after.place == m.place && after.terrain == m.terrain
            &&& if !m.book.lists(r.resource_id) {
                is_nowhere(after.harvest, e)
            } else {
                let node = after.harvest.nodes[e];
                &&& after.harvest.nodes.dom().contains(e)
                &&& node.resource_id == r.resource_id
                &&& 0 <= node.direction < 6
                &&& (node.direction - r.direction_index) % 6 == 0
                &&& m.place.dom().contains(e) ==> node.loc == Some(m.place[e])
                &&& entities_on(after.harvest.on, hex).contains(e) <==> node_covers(m.book, node, hex)
            }
        }),
{
    let e = r.entity_id;
    let h = m.harvest;
    let after = m.with_row(RoadsRow::Resource(r), best, now).harvest;
    lemma_lifted_is_valid(h, m.book, e);
    if m.book.lists(r.resource_id) {
        let d = (r.direction_index as int % 6) as i32;
        assert(0 <= d < 6);
        assert((d - r.direction_index) % 6 == 0);
        let place = known(m.place, e);
        let known_loc = if h.nodes.dom().contains(e) {
            h.nodes[e].loc
        } else {
            None
        };
        let node = Node {
            resource_id: r.resource_id,
            direction: d,
            loc: if place is Some {
                place
            } else {
                known_loc
            },
        };
        lemma_put_is_valid(h.lifted(m.book, e), m.book, e, node);
        assert(after.valid(m.book));
        assert(after.nodes[e] == node);
    }
    lemma_same_tiles(h, after, m.book, e);
    assert forall|x: (i32, i32)| !m.book.lists(r.resource_id) implies !(#[trigger] entities_on(after.on, x)).contains(e) by {
        assert(entities_on(after.on, x).contains(e) <==> after.nodes.dom().contains(e) && node_covers(
            m.book,
            after.nodes[e],
            x,
        ));
    }
    assert(entities_on(after.on, hex).contains(e) <==> after.nodes.dom().contains(e) && node_covers(
        m.book,
        after.nodes[e],
        hex,
    ));
}

/// After a resource went, its entity is no node any more and stands on no tile,
/// neither among the harvestable nodes nor among the resources of the map. The
/// others stay on the tiles that they cover.
pub proof fn law_a_resource_that_went_is_nowhere(m: GridModel, r: ResourceRow, now: i64)
    requires
        m.harvest.valid(m.book),
    ensures
        ({
            let after = m.without_row(RoadsRow::Resource(r), now);
            &&& is_nowhere(after.harvest, r.entity_id)
            &&& harvest_same_but(m.harvest, after.harvest, r.entity_id)
            &&& after.harvest.valid(m.book)
            &&& after.book == m.book
            &&& !after.resources.nodes.dom().contains(r.entity_id)
            &&& forall|x: u64|
                x != r.entity_id ==> (#[trigger] after.resources.nodes.dom().contains(x)
                    <==> m.resources.nodes.dom().contains(x))
            &&& forall|x: u64|
                x != r.entity_id && #[trigger] m.resources.nodes.dom().contains(x) ==> after.resources.nodes[x]
                    == m.resources.nodes[x]
            &&& after.overlay == m.overlay && after.place == m.place && after.terrain == m.terrain
        }),
{
    let after = m.without_row(RoadsRow::Resource(r), now).harvest;
    let e = r.entity_id;
    lemma_lifted_is_valid(m.harvest, m.book, e);
    assert forall|x: (i32, i32)| !(#[trigger] entities_on(after.on, x)).contains(e) by {
        assert(entities_on(after.on, x).contains(e) <==> after.nodes.dom().contains(e) && node_covers(
            m.book,
            after.nodes[e],
            x,
        ));
    }
    lemma_same_tiles(m.harvest, after, m.book, e);
}

/// What rows of resources that went leave.
proof fn lemma_all_gone(m: GridModel, rows: Seq<RoadsRow>, now: i64, n: nat, i: int, x: u64)
    requires
        m.harvest.valid(m.book),
        n <= rows.len(),
        forall|j: int| 0 <= j < n ==> #[trigger] rows[j] is Resource,
    ensures
        ({
            let after = rows_gone(m, rows, now, n);
            &&& after.book == m.book
            &&& after.harvest.valid(m.book)
            &&& 0 <= i < n ==> is_nowhere(after.harvest, rows[i]->Resource_0.entity_id)
            &&& 0 <= i < n ==> !after.resources.nodes.dom().contains(rows[i]->Resource_0.entity_id)
            &&& after.harvest.nodes.dom().contains(x) ==> m.harvest.nodes.dom().contains(x)
            &&& (forall|j: int| 0 <= j < n ==> (#[trigger] rows[j])->Resource_0.entity_id != x) ==> {
                &&& after.harvest.nodes.dom().contains(x) <==> m.harvest.nodes.dom().contains(x)
                &&& m.harvest.nodes.dom().contains(x) ==> after.harvest.nodes[x] == m.harvest.nodes[x]
                &&& forall|hex: (i32, i32)| #[trigger]
                    entities_on(after.harvest.on, hex).contains(x) <==> entities_on(m.harvest.on, hex).contains(x)
            }
        }),
    decreases n,
{
    if n > 0 {
        let p = (n - 1) as nat;
        lemma_all_gone(m, rows, now, p, i, x);
        let before = rows_gone(m, rows, now, p);
        assert(rows[n - 1] is Resource);
        let last = rows[n - 1]->Resource_0;
        law_a_resource_that_went_is_nowhere(before, last, now);
        let after = rows_gone(m, rows, now, n);
        if 0 <= i < p {
            let e = rows[i]->Resource_0.entity_id;
            if e != last.entity_id {
                assert forall|hex: (i32, i32)| !(#[trigger] entities_on(after.harvest.on, hex)).contains(e) by {
                    assert(!entities_on(before.harvest.on, hex).contains(e));
                    assert(entities_on(after.harvest.on, hex).contains(e) <==> entities_on(
                        before.harvest.on,
                        hex,
                    ).contains(e));
                }
            }
        }
        if forall|j: int| 0 <= j < n ==> (#[trigger] rows[j])->Resource_0.entity_id != x {
            assert(rows[n - 1]->Resource_0.entity_id != x);
            assert forall|hex: (i32, i32)| #[trigger]
                entities_on(after.harvest.on, hex).contains(x) <==> entities_on(m.harvest.on, hex).contains(x) by {
                assert(entities_on(after.harvest.on, hex).contains(x) <==> entities_on(before.harvest.on, hex).contains(
                    x,
                ));
            }
        }
    }
}

/// After a batch in which resources went, none of them is a harvestable node,
/// and no tile lists one; an entity that did not go stays on the tiles that it
/// covers.
pub proof fn law_a_batch_removes_the_nodes_that_went(
    before: GridModel,
    after: GridModel,
    meta: RoadsTableMeta,
    table: Seq<char>,
    deletes: Seq<RowInput>,
    now: i64,
    a: Applied,
    i: int,
    other: u64,
)
    requires
        batch_applied(before, after, meta, table, deletes, Seq::empty(), now, Ok(()), a),
        before.harvest.valid(before.book),
        0 <= i < deletes.len(),
        forall|j: int| 0 <= j < a.gone.len() ==> #[trigger] a.gone[j] is Resource,
        forall|j: int| 0 <= j < a.gone.len() ==> (#[trigger] a.gone[j])->Resource_0.entity_id != other,
    ensures
        is_nowhere(after.harvest, a.gone[i]->Resource_0.entity_id),
        !after.resources.nodes.dom().contains(a.gone[i]->Resource_0.entity_id),
        after.harvest.nodes.dom().contains(other) <==> before.harvest.nodes.dom().contains(other),
        before.harvest.nodes.dom().contains(other) ==> after.harvest.nodes[other] == before.harvest.nodes[other],
        forall|hex: (i32, i32)| #[trigger]
            entities_on(after.harvest.on, hex).contains(other) <==> entities_on(before.harvest.on, hex).contains(other),
{
    lemma_all_gone(before, a.gone, now, a.gone.len(), i, other);
}

/// Where chunk coordinates count from: the corner of the region, or once a chunk
/// off the region was seen, the corner of the world.
pub open spec fn chunk_base(m: GridModel, chunk_x: i32, chunk_z: i32) -> (int, int) {
    if m.writer.absolute || !(0 <= chunk_x < 80 && 0 <= chunk_z < 80) {
        (chunk_x - m.writer.origin.0, chunk_z - m.writer.origin.1)
    } else {
        (chunk_x as int, chunk_z as int)
    }
}

/// Whether a super hex of the terrain shows the cell `i` of a chunk.
pub open spec fn shows_chunk_cell(terrain: Seq<u64>, sx: int, sz: int, r: TerrainChunkRow, i: int) -> bool {
    let word = terrain[sz * 2560 + sx];
    &&& terrain_elevation(word) == r.elevations@[i]
    &&& i < r.original_elevations@.len() ==> signed16((word / 0x1_0000 % 0x1_0000) as nat) == r.original_elevations@[i]
    &&& i < r.water_levels@.len() ==> terrain_water_level(word) == r.water_levels@[i]
    &&& i >= r.water_body_types@.len() ==> word / 0x1_0000_0000_0000 == 0
    &&& r.water_body_types@.len() == r.elevations@.len() ==> word / 0x1_0000_0000_0000 == r.water_body_types@[i]
    &&& r.water_body_types@.len() == 2 * r.elevations@.len() && r.elevations@.len() > 0 ==> word / 0x1_0000_0000_0000
        == r.water_body_types@[2 * i]
    &&& i >= r.original_elevations@.len() ==> signed16((word / 0x1_0000 % 0x1_0000) as nat) == r.elevations@[i]
    &&& i >= r.water_levels@.len() ==> terrain_water_level(word) == i16::MIN
}

/// A number has one root.
proof fn lemma_one_root(n: int, s: int)
    requires
        is_side(n, s),
    ensures
        side_of(n) == s,
{
    let t = side_of(n);
    assert(is_side(n, t));
    if t < s {
        assert(t * t < s * s) by (nonlinear_arith)
            requires
                0 < t < s,
        ;
    } else if s < t {
        assert(s * s < t * t) by (nonlinear_arith)
            requires
                0 < s < t,
        ;
    }
}

/// A chunk that is written shows its cells.
proof fn lemma_chunk_written(m: GridModel, r: TerrainChunkRow, s: int, i: int, sx: int, sz: int)
    requires
        m.terrain.len() == TERRAIN_CELLS,
        is_side(r.elevations@.len() as int, s),
        0 <= i < r.elevations@.len(),
        sx == chunk_base(m, r.chunk_x, r.chunk_z).0 * s + i % s,
        sz == chunk_base(m, r.chunk_x, r.chunk_z).1 * s + i / s,
        in_super_grid(sx, sz),
    ensures
        m.chunk_written(r).terrain.len() == TERRAIN_CELLS,
        shows_chunk_cell(m.chunk_written(r).terrain, sx, sz, r, i),
{
    let n = r.elevations@.len() as int;
    lemma_one_root(n, s);
    let chunk = chunk_of(r);
    let corner = m.writer.noted(r.chunk_x, r.chunk_z).corner(r.chunk_x, r.chunk_z, s);
    let k = sz * 2560 + sx;
    assert(SUPER_SIDE == 2560);
    assert(k % 2560 == sx && k / 2560 == sz);
    assert(0 <= k < TERRAIN_CELLS);
    let (dx, dz) = (i % s, i / s);
    assert(0 <= dx < s && 0 <= dz && dz * s + dx == i) by (nonlinear_arith)
        requires
            s > 0,
            0 <= i,
            dx == i % s,
            dz == i / s,
    ;
    assert(corner.0 == chunk_base(m, r.chunk_x, r.chunk_z).0 * s);
    assert(corner.1 == chunk_base(m, r.chunk_x, r.chunk_z).1 * s);
    let word = m.chunk_written(r).terrain[k];
    assert(word == chunk.word(i));
    let e = r.elevations@[i];
    let o = if i < r.original_elevations@.len() {
        r.original_elevations@[i]
    } else {
        e
    };
    let w = if i < r.water_levels@.len() {
        r.water_levels@[i]
    } else {
        i16::MIN
    };
    let at = if r.water_body_types@.len() == 2 * n {
        2 * i
    } else {
        i
    };
    let t = if at < r.water_body_types@.len() {
        r.water_body_types@[at]
    } else {
        0
    };
    assert(terrain_word(e, o, w, t) <= u64::MAX);
    law_terrain_round_trip(e, o, w, t, word);
}

/// A terrain chunk of the dimension that is shown is shown at once by a region
/// that is ready: each cell at its place in the square of the chunk. One of
/// another dimension is not. A region that is being filled keeps it for later.
pub proof fn law_terrain_chunks_are_shown(
    m: GridModel,
    r: TerrainChunkRow,
    best: u32,
    now: i64,
    s: int,
    i: int,
    sx: int,
    sz: int,
)
    requires
        m.terrain.len() == TERRAIN_CELLS,
        is_side(r.elevations@.len() as int, s),
        0 <= i < r.elevations@.len(),
        sx == chunk_base(m, r.chunk_x, r.chunk_z).0 * s + i % s,
        sz == chunk_base(m, r.chunk_x, r.chunk_z).1 * s + i / s,
        in_super_grid(sx, sz),
    ensures
        ({
            let after = m.with_row(RoadsRow::TerrainChunk(r), best, now);
            &&& m.ready && r.dimension == best ==> shows_chunk_cell(after.terrain, sx, sz, r, i)
            &&& m.ready && r.dimension != best ==> after.terrain == m.terrain && after.pending == m.pending
            &&& !m.ready ==> after.terrain == m.terrain && after.pending == m.pending.push(r)
            &&& after.overlay == m.overlay && after.harvest == m.harvest
            &&& known(m.dims, r.dimension as u64) is None ==> known(after.dims, r.dimension as u64) == Some(1u64)
            &&& known(m.dims, r.dimension as u64) matches Some(c) ==> (c < u64::MAX ==> known(
                after.dims,
                r.dimension as u64,
            ) == Some((c + 1) as u64))
        }),
{
    let seen = GridModel {
        dims: crate::roads::apply::counted(m.dims, r.dimension),
        chunks: m.chunks.insert(crate::id_table::key_pair(r.chunk_x as int, r.chunk_z as int), r.dimension),
        ..m
    };
    assert(chunk_base(seen.showing(best), r.chunk_x, r.chunk_z) == chunk_base(m, r.chunk_x, r.chunk_z));
    lemma_chunk_written(seen.showing(best), r, s, i, sx, sz);
}

/// Waiting chunks of another dimension leave the terrain and the numbering.
proof fn lemma_flushed_past(m: GridModel, rows: Seq<TerrainChunkRow>, d: u32, j: nat, n: nat)
    requires
        j <= n <= rows.len(),
        forall|x: int| j <= x < n ==> (#[trigger] rows[x]).dimension != d,
    ensures
        m.flushed(rows, d, n) == m.flushed(rows, d, j),
    decreases n,
{
    if n > j {
        lemma_flushed_past(m, rows, d, j, (n - 1) as nat);
        assert(rows[n - 1].dimension != d);
    }
}

/// Writing waiting chunks keeps the size of the terrain.
proof fn lemma_flushed_size(m: GridModel, rows: Seq<TerrainChunkRow>, d: u32, n: nat)
    ensures
        m.flushed(rows, d, n).terrain.len() == m.terrain.len(),
        m.flushed(rows, d, n).writer.origin == m.writer.origin,
    decreases n,
{
    if n > 0 {
        lemma_flushed_size(m, rows, d, (n - 1) as nat);
    }
}

/// When a region is filled, the terrain that waited is shown for the dimension
/// that was chosen: each cell of the last chunk of it stands in its place. No
/// chunk waits any more.
pub proof fn law_waiting_terrain_is_shown(
    m: GridModel,
    d: u32,
    j: int,
    s: int,
    i: int,
    base: (int, int),
    sx: int,
    sz: int,
)
    requires
        m.terrain.len() == TERRAIN_CELLS,
        0 <= j < m.pending.len(),
        m.pending[j].dimension == d,
        forall|x: int| j < x < m.pending.len() ==> (#[trigger] m.pending[x]).dimension != d,
        is_side(m.pending[j].elevations@.len() as int, s),
        0 <= i < m.pending[j].elevations@.len(),
        base == chunk_base(
            (GridModel { pending: Seq::empty(), ..m }).showing(d).flushed(m.pending, d, j as nat),
            m.pending[j].chunk_x,
            m.pending[j].chunk_z,
        ),
        sx == base.0 * s + i % s,
        sz == base.1 * s + i / s,
        in_super_grid(sx, sz),
    ensures
        shows_chunk_cell(m.terrain_seeded(d).terrain, sx, sz, m.pending[j], i),
        m.terrain_seeded(d).pending.len() == 0,
        m.terrain_seeded(d).writer.dimension == d,
{
    let start = (GridModel { pending: Seq::empty(), ..m }).showing(d);
    lemma_flushed_size(start, m.pending, d, j as nat);
    lemma_flushed_past(start, m.pending, d, (j + 1) as nat, m.pending.len());
    lemma_chunk_written(start.flushed(m.pending, d, j as nat), m.pending[j], s, i, sx, sz);
    lemma_flushed_kept(start, m.pending, d, m.pending.len());
}

/// Writing waiting chunks leaves all but the terrain and its numbering.
proof fn lemma_flushed_kept(m: GridModel, rows: Seq<TerrainChunkRow>, d: u32, n: nat)
    ensures
        m.flushed(rows, d, n).pending == m.pending,
        m.flushed(rows, d, n).writer.dimension == m.writer.dimension,
    decreases n,
{
    if n > 0 {
        lemma_flushed_kept(m, rows, d, (n - 1) as nat);
    }
}

/// After a terrain chunk went, the super hexes of its square hold nothing. All
/// others stay.
pub proof fn law_terrain_that_went_is_empty(m: GridModel, r: TerrainChunkRow, now: i64, sx: int, sz: int)
    requires
        m.terrain.len() == TERRAIN_CELLS,
        in_super_grid(sx, sz),
        m.writer.absolute || (0 <= r.chunk_x < 80 && 0 <= r.chunk_z < 80),
    ensures
        ({
            let after = m.without_row(RoadsRow::TerrainChunk(r), now);
            let base = chunk_base(m, r.chunk_x, r.chunk_z);
            let side = m.writer.side as int;
            let inside = 0 <= sx - base.0 * side < side && 0 <= sz - base.1 * side < side;
            &&& inside ==> after.terrain[sz * 2560 + sx] == 0
            &&& !inside ==> after.terrain[sz * 2560 + sx] == m.terrain[sz * 2560 + sx]
            &&& after.overlay == m.overlay && after.harvest == m.harvest && after.resources == m.resources
        }),
{
    let k = sz * 2560 + sx;
    assert(SUPER_SIDE == 2560);
    assert(k % 2560 == sx && k / 2560 == sz);
}

/// The overworld is shown where it has terrain, and where there is no terrain at
/// all; else no dimension has more chunks than the one that is shown.
pub proof fn law_the_overworld_is_shown_first(dims: Map<u64, u64>, d: u32, other: u64)
    requires
        is_best_dimension(dims, d),
    ensures
        dims.dom().contains(1) ==> d == 1,
        dims == Map::<u64, u64>::empty() ==> d == 1,
        !dims.dom().contains(1) && dims.dom().contains(other) ==> dims.dom().contains(d as u64) && dims[other]
            <= dims[d as u64],
{
}

/// Every row but a resource counts as a change at the time it came or went;
/// terrain does while it is shown. A row of another table changes nothing.
pub proof fn law_changes_are_dated(m: GridModel, row: RoadsRow, best: u32, now: i64)
    requires
        m.generation < u64::MAX,
    ensures
        ({
            let came = m.with_row(row, best, now);
            let gone = m.without_row(row, now);
            &&& row is Other ==> came == m && gone == m
            &&& row is Resource ==> came.generation == m.generation && gone.generation == m.generation
            &&& !(row is Other || row is Resource) ==> gone.generation == m.generation + 1 && gone.updated_at == now
            &&& row is PavedTile || row is ClaimTile || row is ClaimState ==> came.generation == m.generation + 1
                && came.updated_at == now
            &&& row is Location && row->Location_0.dimension == 1 ==> came.generation == m.generation + 1
                && came.updated_at == now
            &&& row matches RoadsRow::TerrainChunk(r) ==> (came.generation != m.generation <==> m.ready && r.dimension
                == best)
            &&& came.ready == m.ready && gone.ready == m.ready && came.region == m.region && gone.region == m.region
            &&& came.loaded_at == m.loaded_at && gone.loaded_at == m.loaded_at
        }),
{
}

/// The maps of a region are in order.
pub proof fn law_maps_are_in_order(grid: RoadsRegionGrid)
    requires
        grid.wf(),
    ensures
        in_order(grid@),
{
    grid.harvestable.lemma_valid();
    grid.resource_map.lemma_valid();
    grid.claim_index.lemma_valid();
    grid.overlay.lemma_size();
}

/// A row is read by the table it stands in: it is a chunk of terrain, a paving, a
/// tile of a claim, a claim, a place or a resource where it stands in the table of
/// these, and nothing in any other.
pub proof fn law_map_rows_are_read_by_their_table(
    meta: RoadsTableMeta,
    table: Seq<char>,
    input: RowInput,
    row: RoadsRow,
)
    requires
        reads_row(meta, table, input, row),
    ensures
        row is TerrainChunk <==> table == "terrain_chunk_state"@,
        row is PavedTile <==> table == "paved_tile_state"@,
        row is ClaimTile <==> table == "claim_tile_state"@,
        row is ClaimState <==> table == "claim_state"@,
        row is Location <==> table == "location_state"@,
        row is Resource <==> table == "resource_state"@,
{
    reveal_strlit("terrain_chunk_state");
    reveal_strlit("paved_tile_state");
    reveal_strlit("claim_tile_state");
    reveal_strlit("claim_state");
    reveal_strlit("location_state");
    reveal_strlit("resource_state");
    assert("terrain_chunk_state"@.len() == 19);
    assert("paved_tile_state"@.len() == 16);
    assert("claim_tile_state"@.len() == 16);
    assert("claim_state"@.len() == 11);
    assert("location_state"@.len() == 14);
    assert("resource_state"@.len() == 14);
    assert("paved_tile_state"@[0] != "claim_tile_state"@[0]);
    assert("location_state"@[0] != "resource_state"@[0]);
}

/// A batch in which one row goes and another comes leaves what the new row says:
/// the old row goes first, so that it takes nothing of the new one away.
pub proof fn law_map_rows_go_before_others_come(
    before: GridModel,
    after: GridModel,
    meta: RoadsTableMeta,
    table: Seq<char>,
    went: RowInput,
    came: RowInput,
    now: i64,
    a: Applied,
)
    requires
        batch_applied(before, after, meta, table, seq![went], seq![came], now, Ok(()), a),
    ensures
        a.gone.len() == 1 && a.came.len() == 1 && a.shown.len() == 1,
        reads_row(meta, table, went, a.gone[0]),
        reads_row(meta, table, came, a.came[0]),
        after == before.without_row(a.gone[0], now).with_row(a.came[0], a.shown[0], now),
{
    reveal_with_fuel(rows_gone, 2);
    reveal_with_fuel(rows_came, 2);
    assert(reads_row(meta, table, seq![went][0], a.gone[0]));
    assert(reads_row(meta, table, seq![came][0], a.came[0]));
}

/// A paved tile is shown among the resources too, where nothing else stands on
/// the tile of its entity, and no longer once its row went. It does not matter
/// whether the paving or the place of the entity came first.
pub proof fn law_pavings_are_shown_among_the_resources(
    m: GridModel,
    r: PavedTileRow,
    l: LocationRoadsRow,
    best: u32,
    now: i64,
    lx: int,
    lz: int,
)
    requires
        m.resources.valid(),
        m.resources.region == m.region,
        m.resources.paving_ids.len() <= 1023,
        in_region(lx, lz),
        content(m.resources.word(lx, lz)) == 0,
        r.tile_type_id != 0,
        l.entity_id == r.entity_id,
        l.dimension == 1,
        l.x == region_corner(m.region as int).0 + lx,
        l.z == region_corner(m.region as int).1 + lz,
    ensures
        known(m.place, r.entity_id) == Some((l.x, l.z)) ==> {
            let came = m.with_row(RoadsRow::PavedTile(r), best, now);
            &&& came.resources.paving_on(lx, lz) == Some(r.tile_type_id)
            &&& came.without_row(RoadsRow::PavedTile(r), now).resources.paving_on(lx, lz) is None
        },
        known(m.paving, r.entity_id) == Some(r.tile_type_id) && !m.resources.nodes.dom().contains(r.entity_id)
            ==> m.with_row(RoadsRow::Location(l), best, now).resources.paving_on(lx, lz) == Some(r.tile_type_id),
{
    law_paving_is_shown_until_it_goes(m.resources, lx, lz, r.tile_type_id);
    let (x, z) = (l.x as int, l.z as int);
    let paved = m.resources.paved(x, z, r.tile_type_id);
    if known(m.place, r.entity_id) == Some((l.x, l.z)) {
        let came = m.with_row(RoadsRow::PavedTile(r), best, now);
        assert(known(came.place, r.entity_id) == Some((l.x, l.z)));
        assert(known(came.paving, r.entity_id) == Some(r.tile_type_id));
        assert(came.resources == paved);
        let gone = came.without_row(RoadsRow::PavedTile(r), now);
        assert(gone.resources == paved.unpaved(x, z, r.tile_type_id));
    }
    if known(m.paving, r.entity_id) == Some(r.tile_type_id) && !m.resources.nodes.dom().contains(r.entity_id) {
        let there = m.with_row(RoadsRow::Location(l), best, now);
        assert(known(there.place, r.entity_id) == Some((l.x, l.z)));
        assert(there.resources == paved);
    }
}

/// A resource that came is on the map of the resources, whether or not it is
/// harvestable: with its type, and where its entity is.
pub proof fn law_resources_are_on_their_map(m: GridModel, r: ResourceRow, best: u32, now: i64, other: u64)
    requires
        m.resources.valid(),
        m.resources.ids.len() <= 1023,
        other != r.entity_id,
    ensures
        ({
            let after = m.with_row(RoadsRow::Resource(r), best, now).resources;
            let e = r.entity_id;
            &&& after.nodes.dom().contains(e)
            &&& after.ids[after.nodes[e].index as int] == r.resource_id
            &&& after.nodes[e].direction == r.direction_index as int % 6
            &&& after.nodes[e].loc == known(m.place, e)
            &&& after.nodes.dom().contains(other) <==> m.resources.nodes.dom().contains(other)
            &&& after.nodes[other] == m.resources.nodes[other]
        }),
{
    law_entities_are_what_their_rows_say(
        m.resources,
        r.entity_id,
        r.resource_id,
        r.direction_index as int,
        known(m.place, r.entity_id),
        other,
    );
}

/// Once terrain of the dimension that is shown came, the ground of a tile is wet
/// just where it was, or where the terrain now lies under water. What stands on
/// the tiles stays.
pub proof fn law_water_follows_the_terrain(
    m: GridModel,
    r: TerrainChunkRow,
    now: i64,
    lx: int,
    lz: int,
)
    requires
        m.ready,
        m.resources.valid(),
        in_region(lx, lz),
    ensures
        ({
            let after = m.with_row(RoadsRow::TerrainChunk(r), r.dimension, now);
            &&& wet(after.resources.word(lx, lz)) <==> wet(m.resources.word(lx, lz)) || ground_is_water(
                after.terrain,
                lx,
                lz,
            )
            &&& content(after.resources.word(lx, lz)) == content(m.resources.word(lx, lz))
            &&& after.resources.nodes == m.resources.nodes
        }),
{
    let after = m.with_row(RoadsRow::TerrainChunk(r), r.dimension, now);
    law_flood_follows_the_terrain(m.resources, after.terrain, lx, lz);
    assert(after.resources == m.resources.flooded(after.terrain));
}

/// A terrain chunk changes its own square and nothing else of the terrain. From
/// then on, chunks that go are taken to be as large; and once one lay off the
/// region, all are counted from the corner of the world.
pub proof fn law_terrain_elsewhere_stays(
    m: GridModel,
    r: TerrainChunkRow,
    now: i64,
    s: int,
    sx: int,
    sz: int,
)
    requires
        m.ready,
        m.terrain.len() == TERRAIN_CELLS,
        is_side(r.elevations@.len() as int, s),
        in_super_grid(sx, sz),
    ensures
        ({
            let after = m.with_row(RoadsRow::TerrainChunk(r), r.dimension, now);
            let base = chunk_base(m, r.chunk_x, r.chunk_z);
            let inside = 0 <= sx - base.0 * s < s && 0 <= sz - base.1 * s < s;
            &&& !inside ==> after.terrain[sz * 2560 + sx] == m.terrain[sz * 2560 + sx]
            &&& after.terrain.len() == m.terrain.len()
            &&& after.writer.side == s
            &&& after.writer.origin == m.writer.origin
            &&& after.writer.absolute <==> m.writer.absolute || !(0 <= r.chunk_x < 80 && 0 <= r.chunk_z < 80)
        }),
{
    let n = r.elevations@.len() as int;
    lemma_one_root(n, s);
    let base = chunk_base(m, r.chunk_x, r.chunk_z);
    let k = sz * 2560 + sx;
    assert(SUPER_SIDE == 2560);
    assert(k % 2560 == sx && k / 2560 == sz);
    assert(0 <= k < TERRAIN_CELLS);
    let (dx, dz) = (sx - base.0 * s, sz - base.1 * s);
    if 0 <= dx < s && s <= dz {
        assert(dz * s + dx >= n) by (nonlinear_arith)
            requires
                s > 0,
                s <= dz,
                0 <= dx,
                s * s == n,
        ;
    }
}

/// The chunks of a region are counted from its own corner at first, and each has
/// 32 super hexes to a side. The region lies where its number says: eighty chunks
/// on for each region before it.
pub proof fn law_chunks_are_counted_from_the_region_at_first(region: u16)
    requires
        0 < region <= 25,
    ensures
        ({
            let w = WriterModel::fresh(region);
            let corner = region_corner(region as int);
            &&& !w.absolute
            &&& w.side == 32
            &&& w.dimension == 1
            &&& w.origin.0 * 96 == corner.0
            &&& w.origin.1 * 96 == corner.1
        }),
{
    assert(REGION_SIDE == 7680 && CHUNKS_PER_SIDE == 80);
}

} // verus!
