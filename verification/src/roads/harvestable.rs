//! Harvestable nodes by the tiles that they cover.
//!
//! A node covers the tiles of its footprint, turned by its direction and
//! added to its origin tile in axial form. Several nodes may cover one tile.

use std::sync::Arc;

use vstd::prelude::*;

use super::allowlist::HarvestableIds;
use super::coords::{
    footprint_hex_checked, footprint_tile, law_footprint_origin, law_footprints_turn_with_their_direction, turned,
};
use crate::id_table::{key32, key_of_i32, key_of_pair, key_pair, lemma_keys_injective, IdTable};
use crate::int_math::{fits_i32, mod_floor};

verus! {

/// Most tiles that one resource query may name.
pub const MAX_RESOURCE_QUERY_TILES: usize = 16384;

/// Whether a resource type is on the list of harvestable types.
pub fn is_harvestable_resource_id(list: &HarvestableIds, resource_id: i32) -> (r: bool)
    requires
        list.wf(),
    ensures
        r <==> list.lists(resource_id),
{
    list.contains(resource_id)
}

/// The harvestable types and their axial footprints.
pub struct HarvestableCatalog {
    list: HarvestableIds,
    footprints: IdTable<Vec<(i32, i32)>>,
}

impl HarvestableCatalog {
    /// List and footprints are well formed.
    pub closed spec fn wf(&self) -> bool {
        self.list.wf() && self.footprints.wf()
    }

    /// Whether a resource type is harvestable.
    pub closed spec fn lists(&self, resource_id: i32) -> bool {
        self.list.lists(resource_id)
    }

    /// The footprint of a type; a single hex where none is known.
    pub closed spec fn cells(&self, resource_id: i32) -> Seq<(i32, i32)> {
        if self.footprints@.dom().contains(key32(resource_id as int)) {
            self.footprints@[key32(resource_id as int)]@
        } else {
            seq![(0i32, 0i32)]
        }
    }

    /// A catalogue of the listed types, all of them single hexes.
    pub fn new(list: HarvestableIds) -> (r: Self)
        requires
            list.wf(),
        ensures
            r.wf(),
            forall|id: i32| r.lists(id) <==> list.lists(id),
            forall|id: i32| r.cells(id) == seq![(0i32, 0i32)],
    {
        HarvestableCatalog { list, footprints: IdTable::new() }
    }

    /// Sets the footprint of a type. A later one replaces an earlier one.
    pub fn set_footprint(&mut self, resource_id: i32, cells: Vec<(i32, i32)>)
        requires
            old(self).wf(),
        ensures
            final(self).wf(),
            forall|id: i32| final(self).lists(id) <==> old(self).lists(id),
            forall|id: i32| #[trigger]
                final(self).cells(id) == if id == resource_id {
                    cells@
                } else {
                    old(self).cells(id)
                },
    {
        proof {
            lemma_keys_injective();
        }
        let _ = self.footprints.insert(key_of_i32(resource_id), cells);
    }

    /// Whether a resource type is harvestable.
    pub fn is_harvestable(&self, resource_id: i32) -> (r: bool)
        requires
            self.wf(),
        ensures
            r <==> self.lists(resource_id),
    {
        is_harvestable_resource_id(&self.list, resource_id)
    }

    /// Number of cells in the footprint of a type.
    fn cell_count(&self, resource_id: i32) -> (r: usize)
        requires
            self.wf(),
        ensures
            r == self.cells(resource_id).len(),
    {
        match self.footprints.get(key_of_i32(resource_id)) {
            Some(cells) => cells.len(),
            None => 1,
        }
    }

    /// One cell of the footprint of a type.
    fn cell(&self, resource_id: i32, k: usize) -> (r: (i32, i32))
        requires
            self.wf(),
            k < self.cells(resource_id).len(),
        ensures
            r == self.cells(resource_id)[k as int],
    {
        match self.footprints.get(key_of_i32(resource_id)) {
            Some(cells) => cells[k],
            None => (0, 0),
        }
    }

    /// The footprint of a type; a single hex where none is known.
    pub fn footprint_offsets(&self, resource_id: i32) -> (r: Vec<(i32, i32)>)
        requires
            self.wf(),
        ensures
            r@ == self.cells(resource_id),
    {
        let n: usize = self.cell_count(resource_id);
        let mut out: Vec<(i32, i32)> = Vec::new();
        let mut k: usize = 0;
        while k < n
            invariant
                self.wf(),
                k <= n == self.cells(resource_id).len(),
                out@ == self.cells(resource_id).take(k as int),
            decreases n - k,
        {
            out.push(self.cell(resource_id, k));
            assert(self.cells(resource_id).take(k + 1) =~= self.cells(resource_id).take(k as int).push(
                self.cells(resource_id)[k as int],
            ));
            k += 1;
        }
        assert(self.cells(resource_id).take(k as int) =~= self.cells(resource_id));
        out
    }
}

/// A harvestable node: its type, its direction in `0..6`, and its origin tile
/// where that is known.
pub struct Node {
    pub resource_id: i32,
    pub direction: i32,
    pub loc: Option<(i32, i32)>,
}

/// Nodes by entity, and the entities on each tile.
#[verifier::ext_equal]
pub struct HarvestModel {
    pub nodes: Map<u64, Node>,
    pub on: Map<(i32, i32), Seq<u64>>,
}

/// The entities on a tile.
pub open spec fn entities_on(on: Map<(i32, i32), Seq<u64>>, hex: (i32, i32)) -> Seq<u64> {
    if on.dom().contains(hex) {
        on[hex]
    } else {
        Seq::empty()
    }
}

/// World tile of a cell of a node.
pub open spec fn node_tile(cells: Seq<(i32, i32)>, direction: i32, loc: (i32, i32), k: int) -> (int, int) {
    footprint_tile(loc.0 as int, loc.1 as int, direction as int, cells[k])
}

/// Whether one of the first `n` cells of a node covers a tile.
pub open spec fn covers(cells: Seq<(i32, i32)>, direction: i32, loc: (i32, i32), n: int, hex: (i32, i32)) -> bool {
    exists|k: int|
        0 <= k < n && #[trigger] node_tile(cells, direction, loc, k) == (hex.0 as int, hex.1 as int)
}

/// Whether a node covers a tile.
pub open spec fn node_covers(catalog: HarvestableCatalog, node: Node, hex: (i32, i32)) -> bool {
    match node.loc {
        Some(loc) => covers(
            catalog.cells(node.resource_id),
            node.direction,
            loc,
            catalog.cells(node.resource_id).len() as int,
            hex,
        ),
        None => false,
    }
}

/// The run without the element at `p`, the last one in its place.
pub open spec fn swap_removed(s: Seq<u64>, p: int) -> Seq<u64> {
    s.update(p, s.last()).drop_last()
}

/// The tiles after an entity came to one.
pub open spec fn entered(on: Map<(i32, i32), Seq<u64>>, hex: (i32, i32), e: u64) -> Map<(i32, i32), Seq<u64>> {
    if entities_on(on, hex).contains(e) {
        on
    } else {
        on.insert(hex, entities_on(on, hex).push(e))
    }
}

/// The tiles after an entity left one.
pub open spec fn left(on: Map<(i32, i32), Seq<u64>>, hex: (i32, i32), e: u64) -> Map<(i32, i32), Seq<u64>> {
    if !entities_on(on, hex).contains(e) {
        on
    } else if on[hex].len() == 1 {
        on.remove(hex)
    } else {
        on.insert(hex, swap_removed(on[hex], on[hex].index_of(e)))
    }
}

/// The tiles after an entity came to the first `n` cells of its footprint.
pub open spec fn indexed(
    on: Map<(i32, i32), Seq<u64>>,
    e: u64,
    cells: Seq<(i32, i32)>,
    direction: i32,
    loc: (i32, i32),
    n: nat,
) -> Map<(i32, i32), Seq<u64>>
    decreases n,
{
    if n == 0 {
        on
    } else {
        let before = indexed(on, e, cells, direction, loc, (n - 1) as nat);
        let at = node_tile(cells, direction, loc, n - 1);
        if fits_i32(at.0) && fits_i32(at.1) {
            entered(before, (at.0 as i32, at.1 as i32), e)
        } else {
            before
        }
    }
}

/// The tiles after an entity left the first `n` cells of its footprint.
pub open spec fn unindexed(
    on: Map<(i32, i32), Seq<u64>>,
    e: u64,
    cells: Seq<(i32, i32)>,
    direction: i32,
    loc: (i32, i32),
    n: nat,
) -> Map<(i32, i32), Seq<u64>>
    decreases n,
{
    if n == 0 {
        on
    } else {
        let before = unindexed(on, e, cells, direction, loc, (n - 1) as nat);
        let at = node_tile(cells, direction, loc, n - 1);
        if fits_i32(at.0) && fits_i32(at.1) {
            left(before, (at.0 as i32, at.1 as i32), e)
        } else {
            before
        }
    }
}

/// No tile lists an entity twice, and none has an empty list.
pub open spec fn tidy(on: Map<(i32, i32), Seq<u64>>) -> bool {
    forall|hex: (i32, i32)| #[trigger] on.dom().contains(hex) ==> on[hex].len() > 0 && on[hex].no_duplicates()
}

impl HarvestModel {
    /// A tile lists just the nodes that cover it, each once.
    pub open spec fn valid(self, catalog: HarvestableCatalog) -> bool {
        &&& tidy(self.on)
        &&& forall|hex: (i32, i32), e: u64| #[trigger]
            entities_on(self.on, hex).contains(e) <==> self.nodes.dom().contains(e) && node_covers(
                catalog,
                self.nodes[e],
                hex,
            )
        &&& forall|e: u64| #[trigger] self.nodes.dom().contains(e) ==> 0 <= self.nodes[e].direction < 6
    }

    /// Without a node's tiles.
    pub open spec fn lifted(self, catalog: HarvestableCatalog, e: u64) -> HarvestModel {
        match self.nodes[e].loc {
            Some(loc) if self.nodes.dom().contains(e) => {
                let cells = catalog.cells(self.nodes[e].resource_id);
                HarvestModel {
                    nodes: self.nodes.remove(e),
                    on: unindexed(self.on, e, cells, self.nodes[e].direction, loc, cells.len()),
                }
            },
            _ => HarvestModel { nodes: self.nodes.remove(e), on: self.on },
        }
    }

    /// With a node and its tiles.
    pub open spec fn put(self, catalog: HarvestableCatalog, e: u64, node: Node) -> HarvestModel {
        match node.loc {
            Some(loc) => {
                let cells = catalog.cells(node.resource_id);
                HarvestModel {
                    nodes: self.nodes.insert(e, node),
                    on: indexed(self.on, e, cells, node.direction, loc, cells.len()),
                }
            },
            None => HarvestModel { nodes: self.nodes.insert(e, node), on: self.on },
        }
    }

    /// After a node row: a type that is not harvestable drops the entity, a
    /// missing place keeps the one that was known.
    pub open spec fn upserted(
        self,
        catalog: HarvestableCatalog,
        e: u64,
        resource_id: i32,
        direction: int,
        loc: Option<(i32, i32)>,
    ) -> HarvestModel {
        if !catalog.lists(resource_id) {
            self.lifted(catalog, e)
        } else {
            let known = if self.nodes.dom().contains(e) {
                self.nodes[e].loc
            } else {
                None
            };
            let node = Node {
                resource_id,
                direction: (direction % 6) as i32,
                loc: if loc is Some {
                    loc
                } else {
                    known
                },
            };
            if self.nodes.dom().contains(e) && self.nodes[e] == node {
                self
            } else {
                self.lifted(catalog, e).put(catalog, e, node)
            }
        }
    }

    /// After a node moved, or lost its place.
    pub open spec fn relocated(self, catalog: HarvestableCatalog, e: u64, loc: Option<(i32, i32)>) -> HarvestModel {
        if self.nodes.dom().contains(e) && self.nodes[e].loc != loc {
            self.lifted(catalog, e).put(catalog, e, Node { loc, ..self.nodes[e] })
        } else {
            self
        }
    }
}

/// The harvestable nodes of a region.
pub struct HarvestableIndex {
    catalog: Arc<HarvestableCatalog>,
    by_entity: IdTable<Node>,
    by_hex: IdTable<Vec<u64>>,
}

impl View for HarvestableIndex {
    type V = HarvestModel;

    closed spec fn view(&self) -> HarvestModel {
        HarvestModel { nodes: self.by_entity@, on: hex_map(self.by_hex) }
    }
}

/// The entities on each tile, out of the table keyed by packed coordinates.
closed spec fn hex_map(t: IdTable<Vec<u64>>) -> Map<(i32, i32), Seq<u64>> {
    Map::new(
        |h: (i32, i32)| t@.dom().contains(key_pair(h.0 as int, h.1 as int)),
        |h: (i32, i32)| t@[key_pair(h.0 as int, h.1 as int)]@,
    )
}

impl HarvestableIndex {
    /// The catalogue in use.
    pub closed spec fn book(&self) -> HarvestableCatalog {
        *self.catalog
    }

    /// The tables are well formed and agree.
    pub closed spec fn wf(&self) -> bool {
        &&& self.catalog.wf()
        &&& self.by_entity.wf()
        &&& self.by_hex.wf()
        &&& self@.valid(*self.catalog)
    }

    /// What [`Self::wf`] says of the model.
    pub proof fn lemma_valid(&self)
        requires
            self.wf(),
        ensures
            self@.valid(self.book()),
            self.book().wf(),
    {
    }

    /// An index without nodes.
    pub fn new(catalog: Arc<HarvestableCatalog>) -> (r: Self)
        requires
            catalog.wf(),
        ensures
            r.wf(),
            r.book() == *catalog,
            r@ == (HarvestModel { nodes: Map::empty(), on: Map::empty() }),
    {
        let r = HarvestableIndex { catalog, by_entity: IdTable::new(), by_hex: IdTable::new() };
        assert(r@.on =~= Map::<(i32, i32), Seq<u64>>::empty());
        r
    }

    /// Number of nodes.
    pub fn len(&self) -> (r: usize)
        requires
            self.wf(),
        ensures
            r == self@.nodes.dom().len(),
    {
        self.by_entity.len()
    }

    /// Number of nodes with a place.
    pub fn located_len(&self) -> (r: usize)
        requires
            self.wf(),
        ensures
            r == self@.nodes.dom().filter(|e: u64| self@.nodes[e].loc is Some).len(),
    {
        let ghost placed = |e: u64| self@.nodes[e].loc is Some;
        let ghost ids = self.by_entity.ids();
        let mut n: usize = 0;
        let mut i: usize = 0;
        proof {
            self.by_entity.lemma_ids();
            assert(ids.take(0).to_set().filter(placed) =~= Set::<u64>::empty());
        }
        while i < self.by_entity.len()
            invariant
                self.wf(),
                ids == self.by_entity.ids(),
                ids.no_duplicates(),
                i <= ids.len(),
                placed == (|e: u64| self@.nodes[e].loc is Some),
                ids.take(i as int).to_set().filter(placed).finite(),
                n == ids.take(i as int).to_set().filter(placed).len(),
                n <= i,
            decreases ids.len() - i,
        {
            proof {
                let a = ids.take(i as int).to_set().filter(placed);
                let b = ids.take(i + 1).to_set().filter(placed);
                let e = ids[i as int];
                assert(!ids.take(i as int).contains(e));
                let short = ids.take(i as int);
                let long = ids.take(i + 1);
                assert forall|x: u64| long.contains(x) <==> short.contains(x) || x == e by {
                    if long.contains(x) {
                        let k = choose|k: int| 0 <= k < long.len() && long[k] == x;
                        if k < i {
                            assert(short[k] == x);
                        }
                    }
                    if short.contains(x) {
                        let k = choose|k: int| 0 <= k < short.len() && short[k] == x;
                        assert(long[k] == x);
                    }
                    assert(long[i as int] == e);
                }
                if placed(e) {
                    assert(b =~= a.insert(e));
                } else {
                    assert(b =~= a);
                }
            }
            if self.by_entity.value_at(i).loc.is_some() {
                n += 1;
            }
            i += 1;
        }
        proof {
            self.by_entity.lemma_ids();
            assert(ids.take(i as int) =~= ids);
            assert(ids.to_set().filter(placed) =~= self@.nodes.dom().filter(placed));
        }
        n
    }

    /// Inserts or updates a node. `loc` is its origin tile in world
    /// coordinates; without one, the place that was known stays.
    pub fn upsert(&mut self, entity_id: u64, resource_id: i32, direction: i32, loc: Option<(i32, i32)>)
        requires
            old(self).wf(),
        ensures
            final(self).wf(),
            final(self).book() == old(self).book(),
            final(self)@ == old(self)@.upserted(old(self).book(), entity_id, resource_id, direction as int, loc),
    {
        if !self.catalog.is_harvestable(resource_id) {
            self.delete(entity_id);
            return;
        }
        let turned: i32 = mod_floor(direction as i64, 6) as i32;
        let mut place: Option<(i32, i32)> = loc;
        if let Some(node) = self.by_entity.get(entity_id) {
            if loc.is_none() {
                place = node.loc;
            }
            if node.resource_id == resource_id && node.direction == turned && same_place(node.loc, place) {
                return;
            }
        }
        self.delete(entity_id);
        self.put(entity_id, Node { resource_id, direction: turned, loc: place });
    }

    /// Takes a node away.
    pub fn delete(&mut self, entity_id: u64)
        requires
            old(self).wf(),
        ensures
            final(self).wf(),
            final(self).book() == old(self).book(),
            final(self)@ == old(self)@.lifted(old(self).book(), entity_id),
            !final(self)@.nodes.dom().contains(entity_id),
    {
        let ghost before = self@;
        match self.by_entity.remove(entity_id) {
            Some(node) => {
                if let Some(loc) = node.loc {
                    self.unindex(entity_id, node.resource_id, node.direction, loc);
                }
                proof {
                    lemma_lifted_is_valid(before, self.book(), entity_id);
                }
            },
            None => {
                assert(before.nodes.remove(entity_id) =~= before.nodes);
            },
        }
    }

    /// Puts a node that the index does not hold in place.
    fn put(&mut self, entity_id: u64, node: Node)
        requires
            old(self).wf(),
            !old(self)@.nodes.dom().contains(entity_id),
            0 <= node.direction < 6,
        ensures
            final(self).wf(),
            final(self).book() == old(self).book(),
            final(self)@ == old(self)@.put(old(self).book(), entity_id, node),
    {
        let ghost before = self@;
        if let Some(loc) = node.loc {
            self.index(entity_id, node.resource_id, node.direction, loc);
        }
        proof {
            lemma_put_is_valid(before, self.book(), entity_id, node);
        }
        let _ = self.by_entity.insert(entity_id, node);
    }

    /// A node that the index holds moved to another origin tile.
    pub fn set_location(&mut self, entity_id: u64, x: i32, z: i32)
        requires
            old(self).wf(),
        ensures
            final(self).wf(),
            final(self).book() == old(self).book(),
            final(self)@ == old(self)@.relocated(old(self).book(), entity_id, Some((x, z))),
    {
        self.relocate(entity_id, Some((x, z)));
    }

    /// A node that the index holds lost its place.
    pub fn clear_location(&mut self, entity_id: u64)
        requires
            old(self).wf(),
        ensures
            final(self).wf(),
            final(self).book() == old(self).book(),
            final(self)@ == old(self)@.relocated(old(self).book(), entity_id, None),
    {
        self.relocate(entity_id, None);
    }

    /// Sets the place of a node that the index holds.
    fn relocate(&mut self, entity_id: u64, loc: Option<(i32, i32)>)
        requires
            old(self).wf(),
        ensures
            final(self).wf(),
            final(self).book() == old(self).book(),
            final(self)@ == old(self)@.relocated(old(self).book(), entity_id, loc),
    {
        let (resource_id, direction) = match self.by_entity.get(entity_id) {
            Some(node) => {
                if same_place(node.loc, loc) {
                    return;
                }
                (node.resource_id, node.direction)
            },
            None => {
                return;
            },
        };
        assert(self@.nodes.dom().contains(entity_id));
        self.delete(entity_id);
        self.put(entity_id, Node { resource_id, direction, loc });
    }

    /// The types of the nodes that cover a tile.
    pub fn resource_ids_on(&self, x: i32, z: i32) -> (r: Vec<i32>)
        requires
            self.wf(),
        ensures
            r@ == entities_on(self@.on, (x, z)).map_values(|e: u64| self@.nodes[e].resource_id),
    {
        let ghost hex = (x, z);
        let ghost f = |e: u64| self@.nodes[e].resource_id;
        let mut out: Vec<i32> = Vec::new();
        if let Some(list) = self.by_hex.get(key_of_pair(x, z)) {
            let mut i: usize = 0;
            assert(list@ == entities_on(self@.on, hex));
            while i < list.len()
                invariant
                    self.wf(),
                    i <= list@.len(),
                    list@ == entities_on(self@.on, hex),
                    f == (|e: u64| self@.nodes[e].resource_id),
                    out@ == list@.take(i as int).map_values(f),
                decreases list.len() - i,
            {
                let e: u64 = list[i];
                proof {
                    assert(entities_on(self@.on, hex).contains(list@[i as int]));
                    assert(list@.take(i + 1) =~= list@.take(i as int).push(e));
                    assert(list@.take(i + 1).map_values(f) =~= list@.take(i as int).map_values(f).push(f(e)));
                }
                if let Some(node) = self.by_entity.get(e) {
                    out.push(node.resource_id);
                }
                i += 1;
            }
            assert(list@.take(i as int) =~= list@);
        } else {
            assert(entities_on(self@.on, hex).map_values(f) =~= Seq::<i32>::empty());
        }
        out
    }

    /// Lists an entity on the tiles of its footprint.
    fn index(&mut self, entity_id: u64, resource_id: i32, direction: i32, loc: (i32, i32))
        requires
            old(self).catalog.wf(),
            old(self).by_entity.wf(),
            old(self).by_hex.wf(),
            tidy(old(self)@.on),
        ensures
            final(self).by_hex.wf(),
            final(self).catalog == old(self).catalog,
            final(self).by_entity == old(self).by_entity,
            final(self)@.on == indexed(
                old(self)@.on,
                entity_id,
                old(self).book().cells(resource_id),
                direction,
                loc,
                old(self).book().cells(resource_id).len(),
            ),
    {
        let ghost start = self@.on;
        let ghost cells = self.book().cells(resource_id);
        let n: usize = self.catalog.cell_count(resource_id);
        let mut k: usize = 0;
        while k < n
            invariant
                k <= n == cells.len(),
                cells == self.book().cells(resource_id),
                self.catalog.wf(),
                self.catalog == old(self).catalog,
                self.by_entity == old(self).by_entity,
                self.by_hex.wf(),
                self@.on == indexed(start, entity_id, cells, direction, loc, k as nat),
            decreases n - k,
        {
            let cell = self.catalog.cell(resource_id, k);
            if let Some(hex) = footprint_hex_checked(loc.0, loc.1, direction, cell) {
                add_to_hex(&mut self.by_hex, hex, entity_id);
            }
            k += 1;
        }
    }

    /// Takes an entity off the tiles of its footprint.
    fn unindex(&mut self, entity_id: u64, resource_id: i32, direction: i32, loc: (i32, i32))
        requires
            old(self).catalog.wf(),
            old(self).by_entity.wf(),
            old(self).by_hex.wf(),
            tidy(old(self)@.on),
        ensures
            final(self).by_hex.wf(),
            final(self).catalog == old(self).catalog,
            final(self).by_entity == old(self).by_entity,
            final(self)@.on == unindexed(
                old(self)@.on,
                entity_id,
                old(self).book().cells(resource_id),
                direction,
                loc,
                old(self).book().cells(resource_id).len(),
            ),
    {
        let ghost start = self@.on;
        let ghost cells = self.book().cells(resource_id);
        let n: usize = self.catalog.cell_count(resource_id);
        let mut k: usize = 0;
        while k < n
            invariant
                k <= n == cells.len(),
                cells == self.book().cells(resource_id),
                self.catalog.wf(),
                self.catalog == old(self).catalog,
                self.by_entity == old(self).by_entity,
                self.by_hex.wf(),
                tidy(self@.on),
                self@.on == unindexed(start, entity_id, cells, direction, loc, k as nat),
            decreases n - k,
        {
            let cell = self.catalog.cell(resource_id, k);
            if let Some(hex) = footprint_hex_checked(loc.0, loc.1, direction, cell) {
                proof {
                    lemma_left(self@.on, hex, entity_id);
                }
                remove_entity_from_hex(&mut self.by_hex, hex, entity_id);
            }
            k += 1;
        }
    }
}

/// Whether two places are the same.
fn same_place(a: Option<(i32, i32)>, b: Option<(i32, i32)>) -> (r: bool)
    ensures
        r <==> a == b,
{
    match (a, b) {
        (Some(p), Some(q)) => p.0 == q.0 && p.1 == q.1,
        (None, None) => true,
        _ => false,
    }
}

/// Position of an entity in a list.
fn position(list: &Vec<u64>, e: u64) -> (r: Option<usize>)
    ensures
        match r {
            Some(p) => p < list@.len() && list@[p as int] == e,
            None => !list@.contains(e),
        },
{
    let mut i: usize = 0;
    while i < list.len()
        invariant
            i <= list@.len(),
            forall|j: int| 0 <= j < i ==> list@[j] != e,
        decreases list.len() - i,
    {
        if list[i] == e {
            return Some(i);
        }
        i += 1;
    }
    None
}

/// Lists an entity on a tile.
fn add_to_hex(by_hex: &mut IdTable<Vec<u64>>, hex: (i32, i32), e: u64)
    requires
        old(by_hex).wf(),
    ensures
        final(by_hex).wf(),
        hex_map(*final(by_hex)) == entered(hex_map(*old(by_hex)), hex, e),
{
    let key: u64 = key_of_pair(hex.0, hex.1);
    proof {
        lemma_keys_injective();
    }
    let ghost before = hex_map(*by_hex);
    match by_hex.remove(key) {
        Some(list) => {
            let mut list = list;
            let ghost was = list@;
            assert(before.dom().contains(hex) && before[hex] == was);
            if position(&list, e).is_none() {
                list.push(e);
            } else {
                assert(was.contains(e));
            }
            let ghost now = list@;
            let _ = by_hex.insert(key, list);
            assert(hex_map(*by_hex) =~= before.insert(hex, now));
            assert(hex_map(*by_hex) =~= entered(before, hex, e));
        },
        None => {
            let mut list: Vec<u64> = Vec::new();
            list.push(e);
            let ghost now = list@;
            let _ = by_hex.insert(key, list);
            assert(!before.dom().contains(hex));
            assert(now =~= Seq::<u64>::empty().push(e));
            assert(hex_map(*by_hex) =~= before.insert(hex, now));
        },
    }
}

/// Takes an entity off a tile.
fn remove_entity_from_hex(by_hex: &mut IdTable<Vec<u64>>, hex: (i32, i32), e: u64)
    requires
        old(by_hex).wf(),
        tidy(hex_map(*old(by_hex))),
    ensures
        final(by_hex).wf(),
        hex_map(*final(by_hex)) == left(hex_map(*old(by_hex)), hex, e),
{
    let key: u64 = key_of_pair(hex.0, hex.1);
    proof {
        lemma_keys_injective();
    }
    let ghost before = hex_map(*by_hex);
    if let Some(list) = by_hex.remove(key) {
        let mut list = list;
        let ghost was = list@;
        assert(before.dom().contains(hex) && before[hex] == was);
        let ghost p = was.index_of(e);
        if let Some(idx) = position(&list, e) {
            let _ = list.swap_remove(idx);
            proof {
                assert(was.contains(e));
                assert(0 <= p < was.len() && was[p] == e);
                assert(p == idx);
                assert(list@ =~= swap_removed(was, p));
            }
        }
        if list.len() > 0 {
            let ghost now = list@;
            let _ = by_hex.insert(key, list);
            assert(hex_map(*by_hex) =~= before.insert(hex, now));
            assert(hex_map(*by_hex) =~= left(before, hex, e));
        } else {
            assert(hex_map(*by_hex) =~= before.remove(hex));
        }
    }
}

/// What an entity that comes to a tile changes.
proof fn lemma_entered(on: Map<(i32, i32), Seq<u64>>, hex: (i32, i32), e: u64)
    requires
        tidy(on),
    ensures
        tidy(entered(on, hex, e)),
        forall|h: (i32, i32), x: u64| #[trigger]
            entities_on(entered(on, hex, e), h).contains(x) <==> entities_on(on, h).contains(x) || (h == hex && x == e),
{
    let after = entered(on, hex, e);
    let l = entities_on(on, hex);
    assert forall|h: (i32, i32), x: u64| #[trigger] entities_on(after, h).contains(x) <==> entities_on(on, h).contains(x)
        || (h == hex && x == e) by {
        if h == hex && !l.contains(e) {
            if l.contains(x) {
                let k = choose|k: int| 0 <= k < l.len() && l[k] == x;
                assert(l.push(e)[k] == x);
            }
            assert(l.push(e)[l.len() as int] == e);
        }
    }
}

/// What an entity that leaves a tile changes.
proof fn lemma_left(on: Map<(i32, i32), Seq<u64>>, hex: (i32, i32), e: u64)
    requires
        tidy(on),
    ensures
        tidy(left(on, hex, e)),
        forall|h: (i32, i32), x: u64| #[trigger]
            entities_on(left(on, hex, e), h).contains(x) <==> entities_on(on, h).contains(x) && !(h == hex && x == e),
{
    let after = left(on, hex, e);
    let l = entities_on(on, hex);
    if l.contains(e) {
        let p = l.index_of(e);
        assert(0 <= p < l.len() && l[p] == e);
        let m = swap_removed(l, p);
        assert forall|x: u64| m.contains(x) <==> l.contains(x) && x != e by {
            if l.contains(x) && x != e {
                let k = choose|k: int| 0 <= k < l.len() && l[k] == x;
                if k == l.len() - 1 {
                    assert(m[p] == x);
                } else {
                    assert(m[k] == x);
                }
            }
            if m.contains(x) {
                let k = choose|k: int| 0 <= k < m.len() && m[k] == x;
                if k == p {
                    assert(l[l.len() - 1] == x);
                } else {
                    assert(l[k] == x);
                }
            }
        }
        assert forall|i: int, j: int| 0 <= i < j < m.len() implies m[i] != m[j] by {
            let a = if i == p {
                l.len() - 1
            } else {
                i
            };
            let b = if j == p {
                l.len() - 1
            } else {
                j
            };
            assert(m[i] == l[a] && m[j] == l[b]);
        }
        if l.len() == 1 {
            assert forall|x: u64| l.contains(x) implies x == e by {
                let k = choose|k: int| 0 <= k < l.len() && l[k] == x;
                assert(k == p);
            }
        }
    }
}

/// The tiles after an entity came to all cells of a footprint.
proof fn lemma_indexed(
    on: Map<(i32, i32), Seq<u64>>,
    e: u64,
    cells: Seq<(i32, i32)>,
    direction: i32,
    loc: (i32, i32),
    n: nat,
)
    requires
        tidy(on),
    ensures
        tidy(indexed(on, e, cells, direction, loc, n)),
        forall|h: (i32, i32), x: u64| #[trigger]
            entities_on(indexed(on, e, cells, direction, loc, n), h).contains(x) <==> entities_on(on, h).contains(x) || (x
                == e && covers(cells, direction, loc, n as int, h)),
    decreases n,
{
    if n > 0 {
        let p = (n - 1) as nat;
        lemma_indexed(on, e, cells, direction, loc, p);
        let before = indexed(on, e, cells, direction, loc, p);
        let after = indexed(on, e, cells, direction, loc, n);
        let at = node_tile(cells, direction, loc, n - 1);
        let hex = (at.0 as i32, at.1 as i32);
        if fits_i32(at.0) && fits_i32(at.1) {
            lemma_entered(before, hex, e);
        }
        assert forall|h: (i32, i32), x: u64| #[trigger]
            entities_on(after, h).contains(x) <==> entities_on(on, h).contains(x) || (x == e && covers(
                cells,
                direction,
                loc,
                n as int,
                h,
            )) by {
            lemma_covers_step(cells, direction, loc, n, h);
            assert(entities_on(before, h).contains(x) <==> entities_on(on, h).contains(x) || (x == e && covers(
                cells,
                direction,
                loc,
                p as int,
                h,
            )));
        }
    }
}

/// The tiles after an entity left all cells of a footprint.
proof fn lemma_unindexed(
    on: Map<(i32, i32), Seq<u64>>,
    e: u64,
    cells: Seq<(i32, i32)>,
    direction: i32,
    loc: (i32, i32),
    n: nat,
)
    requires
        tidy(on),
    ensures
        tidy(unindexed(on, e, cells, direction, loc, n)),
        forall|h: (i32, i32), x: u64| #[trigger]
            entities_on(unindexed(on, e, cells, direction, loc, n), h).contains(x) <==> entities_on(on, h).contains(x) && !(x
                == e && covers(cells, direction, loc, n as int, h)),
    decreases n,
{
    if n > 0 {
        let p = (n - 1) as nat;
        lemma_unindexed(on, e, cells, direction, loc, p);
        let before = unindexed(on, e, cells, direction, loc, p);
        let after = unindexed(on, e, cells, direction, loc, n);
        let at = node_tile(cells, direction, loc, n - 1);
        let hex = (at.0 as i32, at.1 as i32);
        if fits_i32(at.0) && fits_i32(at.1) {
            lemma_left(before, hex, e);
        }
        assert forall|h: (i32, i32), x: u64| #[trigger]
            entities_on(after, h).contains(x) <==> entities_on(on, h).contains(x) && !(x == e && covers(
                cells,
                direction,
                loc,
                n as int,
                h,
            )) by {
            lemma_covers_step(cells, direction, loc, n, h);
            assert(entities_on(before, h).contains(x) <==> entities_on(on, h).contains(x) && !(x == e && covers(
                cells,
                direction,
                loc,
                p as int,
                h,
            )));
        }
    }
}

/// One cell more.
proof fn lemma_covers_step(cells: Seq<(i32, i32)>, direction: i32, loc: (i32, i32), n: nat, h: (i32, i32))
    requires
        n > 0,
    ensures
        covers(cells, direction, loc, n as int, h) <==> covers(cells, direction, loc, n - 1, h) || node_tile(
            cells,
            direction,
            loc,
            n - 1,
        ) == (h.0 as int, h.1 as int),
{
    if covers(cells, direction, loc, n - 1, h) {
        let k = choose|k: int|
            0 <= k < n - 1 && #[trigger] node_tile(cells, direction, loc, k) == (h.0 as int, h.1 as int);
        assert(node_tile(cells, direction, loc, k) == (h.0 as int, h.1 as int));
    }
}

/// Taking a node away keeps the model valid.
pub proof fn lemma_lifted_is_valid(m: HarvestModel, catalog: HarvestableCatalog, e: u64)
    requires
        m.valid(catalog),
    ensures
        m.lifted(catalog, e).valid(catalog),
{
    let after = m.lifted(catalog, e);
    if m.nodes.dom().contains(e) {
        if let Some(loc) = m.nodes[e].loc {
            let cells = catalog.cells(m.nodes[e].resource_id);
            lemma_unindexed(m.on, e, cells, m.nodes[e].direction, loc, cells.len());
        }
    }
    assert forall|hex: (i32, i32), x: u64| #[trigger]
        entities_on(after.on, hex).contains(x) <==> after.nodes.dom().contains(x) && node_covers(
            catalog,
            after.nodes[x],
            hex,
        ) by {
        assert(entities_on(m.on, hex).contains(x) <==> m.nodes.dom().contains(x) && node_covers(
            catalog,
            m.nodes[x],
            hex,
        ));
    }
}

/// Putting a node in place keeps the model valid.
pub proof fn lemma_put_is_valid(m: HarvestModel, catalog: HarvestableCatalog, e: u64, node: Node)
    requires
        m.valid(catalog),
        !m.nodes.dom().contains(e),
        0 <= node.direction < 6,
    ensures
        m.put(catalog, e, node).valid(catalog),
{
    let after = m.put(catalog, e, node);
    if let Some(loc) = node.loc {
        let cells = catalog.cells(node.resource_id);
        lemma_indexed(m.on, e, cells, node.direction, loc, cells.len());
    }
    assert forall|hex: (i32, i32), x: u64| #[trigger]
        entities_on(after.on, hex).contains(x) <==> after.nodes.dom().contains(x) && node_covers(
            catalog,
            after.nodes[x],
            hex,
        ) by {
        assert(entities_on(m.on, hex).contains(x) <==> m.nodes.dom().contains(x) && node_covers(
            catalog,
            m.nodes[x],
            hex,
        ));
    }
}

/// A tile lists an entity just if the node of that entity covers the tile,
/// whatever rows, moves and removals came before.
pub proof fn law_tiles_list_their_nodes(index: HarvestableIndex, hex: (i32, i32), e: u64)
    requires
        index.wf(),
    ensures
        entities_on(index@.on, hex).contains(e) <==> index@.nodes.dom().contains(e) && node_covers(
            index.book(),
            index@.nodes[e],
            hex,
        ),
        entities_on(index@.on, hex).no_duplicates(),
{
}

/// A node that was taken away is on no tile.
pub proof fn law_deleted_node_is_nowhere(m: HarvestModel, catalog: HarvestableCatalog, e: u64, hex: (i32, i32))
    requires
        m.valid(catalog),
    ensures
        m.lifted(catalog, e).valid(catalog),
        !entities_on(m.lifted(catalog, e).on, hex).contains(e),
{
    lemma_lifted_is_valid(m, catalog, e);
}

/// The same row a second time changes nothing.
pub proof fn law_row_is_idempotent(
    m: HarvestModel,
    catalog: HarvestableCatalog,
    e: u64,
    resource_id: i32,
    direction: int,
    loc: Option<(i32, i32)>,
)
    ensures
        m.upserted(catalog, e, resource_id, direction, loc).upserted(catalog, e, resource_id, direction, loc)
            == m.upserted(catalog, e, resource_id, direction, loc),
{
    let once = m.upserted(catalog, e, resource_id, direction, loc);
    if !catalog.lists(resource_id) {
        assert(once.nodes.remove(e) =~= once.nodes);
    }
}

/// A node covers just the tiles of its footprint, turned by its direction around
/// the tile it stands on; one without a place covers none, and one of a single
/// hex the tile it stands on alone.
pub proof fn law_nodes_cover_their_footprint(catalog: HarvestableCatalog, node: Node, hex: (i32, i32))
    ensures
        node.loc is None ==> !node_covers(catalog, node, hex),
        node.loc matches Some(loc) ==> (node_covers(catalog, node, hex) <==> exists|k: int|
            0 <= k < catalog.cells(node.resource_id).len() && is_turned_to(
                #[trigger] catalog.cells(node.resource_id)[k],
                node.direction as int,
                loc,
                hex,
            )),
        node.loc matches Some(loc) ==> (catalog.cells(node.resource_id) == seq![(0i32, 0i32)] ==> (node_covers(
            catalog,
            node,
            hex,
        ) <==> hex == loc)),
{
    let cells = catalog.cells(node.resource_id);
    if let Some(loc) = node.loc {
        let d = node.direction;
        assert forall|k: int| 0 <= k < cells.len() implies (node_tile(cells, d, loc, k) == (hex.0 as int, hex.1 as int)
            <==> is_turned_to(#[trigger] cells[k], d as int, loc, hex)) by {
            law_footprints_turn_with_their_direction(loc.0 as int, loc.1 as int, d as int, cells[k]);
        }
        if node_covers(catalog, node, hex) {
            let k = choose|k: int|
                0 <= k < cells.len() && #[trigger] node_tile(cells, d, loc, k) == (hex.0 as int, hex.1 as int);
            assert(is_turned_to(cells[k], d as int, loc, hex));
        }
        if exists|k: int| 0 <= k < cells.len() && is_turned_to(#[trigger] cells[k], d as int, loc, hex) {
            let k = choose|k: int| 0 <= k < cells.len() && is_turned_to(#[trigger] cells[k], d as int, loc, hex);
            assert(node_tile(cells, d, loc, k) == (hex.0 as int, hex.1 as int));
        }
        if cells == seq![(0i32, 0i32)] {
            law_footprint_origin(loc.0 as int, loc.1 as int, d as int);
            assert(node_tile(cells, d, loc, 0) == (loc.0 as int, loc.1 as int));
        }
    }
}

/// Whether a cell of a footprint, turned by a direction around a tile, lies on
/// another one.
pub open spec fn is_turned_to(cell: (i32, i32), direction: int, loc: (i32, i32), hex: (i32, i32)) -> bool {
    let (x, z) = (hex.0 as int, hex.1 as int);
    let (wx, wz) = (loc.0 as int, loc.1 as int);
    ((x - z / 2) - (wx - wz / 2), z - wz) == turned((cell.0 as int, cell.1 as int), direction)
}

} // verus!
