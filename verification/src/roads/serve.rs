//! Answers to questions about the maps of a region.

use vstd::prelude::*;

use crate::bitme::serve::{found_maps, roads_region, roads_wf};
use crate::bitme::window::RegionMaps;
use crate::id_table::{key_of_pair, key_pair, lemma_keys_injective, IdTable};
use crate::roads::harvestable::{
    entities_on, node_covers, HarvestModel, HarvestableCatalog, MAX_RESOURCE_QUERY_TILES,
};
use crate::roads::store::{RegionMapSnapshot, RoadsRegionGrid, RoadsRegionHandle};
use crate::text::same_text;

verus! {

/// What a question for the whole map of a region is answered.
#[derive(Debug)]
pub enum MapReply {
    NotEnabled,
    UnknownRegion { region: u32 },
    /// The maps are still being filled.
    Loading,
    /// Who asks has this state of the map.
    NotModified,
    Snapshot(RegionMapSnapshot),
}

/// Answers a question for the whole map of a region. `known_tag` is the tag of
/// the state that who asks has.
pub fn roads_region_map(roads: Option<&[RoadsRegionHandle]>, region: u32, known_tag: Option<&str>) -> (r: MapReply)
    requires
        roads_wf(roads),
    ensures
        if roads is None {
            r is NotEnabled
        } else {
            match found_maps(roads, region) {
                None => r == (MapReply::UnknownRegion { region }),
                Some(m) => if !m.ready {
                    r is Loading
                } else if known_tag matches Some(tag) && tag@ == m.tag() {
                    r is NotModified
                } else {
                    r matches MapReply::Snapshot(s) && m.is_told_by(s)
                },
            }
        },
{
    let grid = match roads_region(roads, region) {
        RegionMaps::Off => {
            return MapReply::NotEnabled;
        },
        RegionMaps::Missing => {
            return MapReply::UnknownRegion { region };
        },
        RegionMaps::Held(g) => g,
    };
    if !grid.ready {
        return MapReply::Loading;
    }
    let snapshot = grid.snapshot();
    if let Some(tag) = known_tag {
        if same_text(tag, snapshot.etag.as_str()) {
            return MapReply::NotModified;
        }
    }
    MapReply::Snapshot(snapshot)
}

/// A resource on a tile.
#[derive(Debug, Clone, Copy, PartialEq, Eq, Structural)]
pub struct ResourceNode {
    pub x: i32,
    pub z: i32,
    pub resource_id: i32,
}

/// What a question for the resources on tiles is answered.
#[derive(Debug)]
pub enum ResourcesReply {
    NotEnabled,
    UnknownRegion { region: u32 },
    /// Too many tiles were asked for at once.
    TooMany { count: usize },
    /// The maps are still being filled.
    Loading,
    Nodes(Vec<ResourceNode>),
}

/// The resources on a tile.
pub open spec fn nodes_on(h: HarvestModel, t: (i32, i32)) -> Seq<ResourceNode> {
    entities_on(h.on, t).map_values(
        |e: u64| ResourceNode { x: t.0, z: t.1, resource_id: h.nodes[e].resource_id },
    )
}

/// The resources on the first `n` tiles of a list; a tile that occurs again
/// does not count again.
pub open spec fn nodes_among(h: HarvestModel, tiles: Seq<(i32, i32)>, n: nat) -> Seq<ResourceNode>
    decreases n,
{
    if n == 0 {
        Seq::empty()
    } else {
        let before = nodes_among(h, tiles, (n - 1) as nat);
        if tiles.take(n - 1).contains(tiles[n - 1]) {
            before
        } else {
            before + nodes_on(h, tiles[n - 1])
        }
    }
}

/// The resources on tiles, in the order of the tiles.
fn collect_nodes(grid: &RoadsRegionGrid, tiles: &[(i32, i32)]) -> (r: Vec<ResourceNode>)
    requires
        grid.wf(),
    ensures
        r@ == nodes_among(grid@.harvest, tiles@, tiles@.len()),
{
    let mut nodes: Vec<ResourceNode> = Vec::new();
    let mut seen: IdTable<()> = IdTable::new();
    let mut i: usize = 0;
    while i < tiles.len()
        invariant
            grid.wf(),
            seen.wf(),
            i <= tiles@.len(),
            forall|x: i32, z: i32|
                #[trigger] seen@.dom().contains(key_pair(x as int, z as int)) <==> tiles@.take(i as int).contains((x, z)),
            nodes@ == nodes_among(grid@.harvest, tiles@, i as nat),
        decreases tiles.len() - i,
    {
        let (x, z) = tiles[i];
        let ghost was = seen@;
        let ghost before = nodes@;
        let again: bool = seen.insert(key_of_pair(x, z), ()).is_some();
        proof {
            lemma_keys_injective();
            assert(again <==> tiles@.take(i as int).contains((x, z)));
            assert forall|a: i32, b: i32|
                #[trigger] seen@.dom().contains(key_pair(a as int, b as int)) <==> tiles@.take(i + 1).contains(
                    (a, b),
                ) by {
                assert(tiles@.take(i + 1) =~= tiles@.take(i as int).push((x, z)));
                if tiles@.take(i as int).contains((a, b)) {
                    let k = choose|k: int| 0 <= k < i && tiles@.take(i as int)[k] == (a, b);
                    assert(tiles@.take(i + 1)[k] == (a, b));
                }
                if (a, b) == (x, z) {
                    assert(tiles@.take(i + 1)[i as int] == (a, b));
                }
            }
        }
        if !again {
            let ids = grid.harvestable.resource_ids_on(x, z);
            let ghost all = nodes_on(grid@.harvest, (x, z));
            let mut k: usize = 0;
            assert(before + all.take(0) =~= before);
            while k < ids.len()
                invariant
                    k <= ids@.len() == all.len(),
                    all == nodes_on(grid@.harvest, (x, z)),
                    forall|j: int|
                        0 <= j < ids@.len() ==> all[j] == (ResourceNode { x, z, resource_id: #[trigger] ids@[j] }),
                    nodes@ == before + all.take(k as int),
                decreases ids.len() - k,
            {
                nodes.push(ResourceNode { x, z, resource_id: ids[k] });
                assert(nodes@ =~= before + all.take(k + 1));
                k += 1;
            }
            assert(all.take(k as int) =~= all);
        }
        i += 1;
    }
    nodes
}

/// Answers a question for the resources on tiles of a region.
pub fn roads_region_resources(roads: Option<&[RoadsRegionHandle]>, region: u32, tiles: &[(i32, i32)]) -> (r: ResourcesReply)
    requires
        roads_wf(roads),
    ensures
        if roads is None {
            r is NotEnabled
        } else {
            match found_maps(roads, region) {
                None => r == (ResourcesReply::UnknownRegion { region }),
                Some(m) => if tiles@.len() > MAX_RESOURCE_QUERY_TILES {
                    r == (ResourcesReply::TooMany { count: tiles@.len() as usize })
                } else if !m.ready {
                    r is Loading
                } else {
                    r matches ResourcesReply::Nodes(nodes) && nodes@ == nodes_among(m.harvest, tiles@, tiles@.len())
                },
            }
        },
{
    let grid = match roads_region(roads, region) {
        RegionMaps::Off => {
            return ResourcesReply::NotEnabled;
        },
        RegionMaps::Missing => {
            return ResourcesReply::UnknownRegion { region };
        },
        RegionMaps::Held(g) => g,
    };
    if tiles.len() > MAX_RESOURCE_QUERY_TILES {
        return ResourcesReply::TooMany { count: tiles.len() };
    }
    if !grid.ready {
        return ResourcesReply::Loading;
    }
    ResourcesReply::Nodes(collect_nodes(grid, tiles))
}

/// The resources on the first tiles of a list.
proof fn lemma_among(h: HarvestModel, tiles: Seq<(i32, i32)>, n: nat, node: ResourceNode)
    requires
        n <= tiles.len(),
    ensures
        nodes_among(h, tiles, n).contains(node) <==> tiles.take(n as int).contains((node.x, node.z)) && nodes_on(
            h,
            (node.x, node.z),
        ).contains(node),
    decreases n,
{
    let t = (node.x, node.z);
    if n > 0 {
        let p = n - 1;
        lemma_among(h, tiles, p as nat, node);
        let (few, all) = (tiles.take(p), tiles.take(n as int));
        assert(all =~= few.push(tiles[p]));
        assert(all[p] == tiles[p]);
        if few.contains(t) {
            let k = choose|k: int| 0 <= k < few.len() && few[k] == t;
            assert(all[k] == t);
        }
        if all.contains(t) && tiles[p] != t {
            let k = choose|k: int| 0 <= k < all.len() && all[k] == t;
            assert(few[k] == t);
        }
        let before = nodes_among(h, tiles, p as nat);
        let more = nodes_on(h, tiles[p]);
        if before.contains(node) {
            let k = choose|k: int| 0 <= k < before.len() && before[k] == node;
            assert((before + more)[k] == node);
        }
        if more.contains(node) {
            let k = choose|k: int| 0 <= k < more.len() && more[k] == node;
            assert((before + more)[before.len() + k] == node);
        }
        if (before + more).contains(node) && !before.contains(node) {
            let k = choose|k: int| 0 <= k < (before + more).len() && (before + more)[k] == node;
            if k < before.len() {
                assert(before[k] == node);
            } else {
                assert(more[k - before.len()] == node);
            }
        }
        if more.contains(node) {
            let k = choose|k: int| 0 <= k < more.len() && more[k] == node;
            assert(more[k].x == tiles[p].0 && more[k].z == tiles[p].1);
        }
    }
}

/// An answer tells of a resource on a tile just where the tile was asked for and
/// a harvestable node of that type covers it.
pub proof fn law_answers_tell_of_the_nodes_on_the_tiles(
    h: HarvestModel,
    book: HarvestableCatalog,
    tiles: Seq<(i32, i32)>,
    node: ResourceNode,
)
    requires
        h.valid(book),
    ensures
        nodes_among(h, tiles, tiles.len()).contains(node) <==> tiles.contains((node.x, node.z)) && exists|e: u64| #[trigger]
            h.nodes.dom().contains(e) && h.nodes[e].resource_id == node.resource_id && node_covers(
                book,
                h.nodes[e],
                (node.x, node.z),
            ),
{
    let t = (node.x, node.z);
    lemma_among(h, tiles, tiles.len(), node);
    assert(tiles.take(tiles.len() as int) =~= tiles);
    let on = entities_on(h.on, t);
    let all = nodes_on(h, t);
    if all.contains(node) {
        let k = choose|k: int| 0 <= k < all.len() && all[k] == node;
        assert(entities_on(h.on, t).contains(on[k]));
        assert(h.nodes.dom().contains(on[k]));
    }
    if exists|e: u64| #[trigger]
        h.nodes.dom().contains(e) && h.nodes[e].resource_id == node.resource_id && node_covers(book, h.nodes[e], t) {
        let e = choose|e: u64| #[trigger]
            h.nodes.dom().contains(e) && h.nodes[e].resource_id == node.resource_id && node_covers(book, h.nodes[e], t);
        assert(entities_on(h.on, t).contains(e));
        let k = choose|k: int| 0 <= k < on.len() && on[k] == e;
        assert(all[k] == node);
    }
}

} // verus!
