//! Changes of the resource map, pushed to those who look at a part of it.
//!
//! A listener is a player with a window of the map around an anchor. Whenever
//! writes were recorded, each listener gets the tiles in its window that
//! changed, with their last word. Nobody keeps a copy of a window here: who
//! listens fetches the window once and applies what comes. A listener whose
//! queue is full is dropped and told so; it starts over.

use vstd::prelude::*;

use crate::id_table::IdTable;
use crate::roads::coords::{map_region, region_corner, region_origin, REGION_SIDE};
use crate::roads::join::known;
use crate::roads::resource_map::{replay, MapModel, ResourceTileMap};
use crate::sorted::{sort_dedup_keys, strictly_ascending};

verus! {

/// Side of a window in tiles. The anchor is the tile behind its middle.
pub const WINDOW_WIDTH: i32 = 400;

/// Half the side of a window.
pub const WINDOW_HALF: i32 = 200;

/// Number of frames that may wait for a listener.
pub const LISTENER_QUEUE: usize = 256;

/// What is sent to a listener.
#[derive(Debug)]
pub enum WatchFrame {
    /// Tiles that changed, in world coordinates, with their words.
    Delta { region: u32, dict_version: u32, tiles: Vec<(i32, i32, u16)> },
    /// The map was replaced: the window has to be fetched anew.
    Resync { region: u32, reason: &'static str },
}

/// How sending a frame went.
#[derive(Debug, Clone, Copy, PartialEq, Eq, Structural)]
pub enum SendOutcome {
    Sent,
    /// The queue is full.
    Full,
    /// Nobody receives any more.
    Closed,
}

/// Somebody who looks at a part of a map.
#[derive(Debug, Clone, Copy, PartialEq, Eq)]
pub struct Listener {
    pub id: u64,
    pub player_entity_id: u64,
    pub anchor: (i32, i32),
}

/// The word that was written last to a tile.
pub open spec fn last_write(changes: Seq<(u32, u16)>, tile: u32) -> Option<u16>
    decreases changes.len(),
{
    if changes.len() == 0 {
        None
    } else if changes.last().0 == tile {
        Some(changes.last().1)
    } else {
        last_write(changes.drop_last(), tile)
    }
}

/// Numbers of tiles in a list of writes.
pub open spec fn tiles_of(writes: Seq<(u32, u16)>) -> Seq<u64> {
    writes.map_values(|w: (u32, u16)| w.0 as u64)
}

/// One write for each tile that was written, the last one, in the order of the
/// tiles.
pub open spec fn is_collapsed(changes: Seq<(u32, u16)>, out: Seq<(u32, u16)>) -> bool {
    &&& strictly_ascending(tiles_of(out))
    &&& forall|i: int| 0 <= i < out.len() ==> last_write(changes, (#[trigger] out[i]).0) == Some(out[i].1)
    &&& forall|tile: u32| #[trigger]
        last_write(changes, tile) is Some ==> out.contains((tile, last_write(changes, tile)->0))
}

/// A tile was written just if it has a last write.
proof fn lemma_last_write(changes: Seq<(u32, u16)>, tile: u32)
    ensures
        last_write(changes, tile) is Some <==> exists|i: int| 0 <= i < changes.len() && (#[trigger] changes[i]).0 == tile,
    decreases changes.len(),
{
    if changes.len() > 0 {
        let short = changes.drop_last();
        lemma_last_write(short, tile);
        if changes.last().0 != tile {
            if exists|i: int| 0 <= i < changes.len() && (#[trigger] changes[i]).0 == tile {
                let i = choose|i: int| 0 <= i < changes.len() && (#[trigger] changes[i]).0 == tile;
                assert(short[i].0 == tile);
            }
            if exists|i: int| 0 <= i < short.len() && (#[trigger] short[i]).0 == tile {
                let i = choose|i: int| 0 <= i < short.len() && (#[trigger] short[i]).0 == tile;
                assert(changes[i].0 == tile);
            }
        } else {
            assert(changes[changes.len() - 1].0 == tile);
        }
    }
}

/// Keeps the last write of each tile, in the order of the tiles.
pub fn collapse(changes: &[(u32, u16)]) -> (r: Vec<(u32, u16)>)
    ensures
        is_collapsed(changes@, r@),
{
    let mut last: IdTable<u16> = IdTable::new();
    let mut keys: Vec<u64> = Vec::new();
    let mut i: usize = 0;
    while i < changes.len()
        invariant
            i <= changes@.len(),
            last.wf(),
            keys@.len() == i,
            forall|j: int| 0 <= j < i ==> #[trigger] keys@[j] == changes@[j].0 as u64,
            forall|tile: u32| known(last@, tile as u64) == #[trigger] last_write(changes@.take(i as int), tile),
        decreases changes.len() - i,
    {
        let (tile, word): (u32, u16) = changes[i];
        let _ = last.insert(tile as u64, word);
        keys.push(tile as u64);
        proof {
            let more = changes@.take(i + 1);
            assert(more.drop_last() =~= changes@.take(i as int));
            assert(more.last() == (tile, word));
            assert forall|t: u32| known(last@, t as u64) == #[trigger] last_write(more, t) by {
                assert(last_write(changes@.take(i as int), t) == last_write(more.drop_last(), t));
            }
        }
        i += 1;
    }
    assert(changes@.take(i as int) =~= changes@);
    let ghost all = keys@;
    let sorted = sort_dedup_keys(keys);
    let mut out: Vec<(u32, u16)> = Vec::new();
    let mut k: usize = 0;
    proof {
        assert forall|l: int| 0 <= l < sorted@.len() implies {
            &&& #[trigger] sorted@[l] <= u32::MAX
            &&& last_write(changes@, sorted@[l] as u32) is Some
        } by {
            assert(sorted@.contains(sorted@[l]));
            assert(all.contains(sorted@[l]));
            let j = choose|j: int| 0 <= j < all.len() && all[j] == sorted@[l];
            assert(changes@[j].0 == sorted@[l] as u32);
            lemma_last_write(changes@, sorted@[l] as u32);
        }
    }
    while k < sorted.len()
        invariant
            k <= sorted@.len(),
            last.wf(),
            strictly_ascending(sorted@),
            forall|tile: u32| known(last@, tile as u64) == #[trigger] last_write(changes@, tile),
            forall|l: int|
                0 <= l < sorted@.len() ==> {
                    &&& #[trigger] sorted@[l] <= u32::MAX
                    &&& last_write(changes@, sorted@[l] as u32) is Some
                },
            out@.len() == k,
            forall|l: int|
                0 <= l < k ==> (#[trigger] out@[l]).0 == sorted@[l] && last_write(changes@, out@[l].0) == Some(
                    out@[l].1,
                ),
        decreases sorted.len() - k,
    {
        let tile: u32 = sorted[k] as u32;
        assert(last_write(changes@, tile) is Some);
        match last.get(tile as u64) {
            Some(word) => {
                out.push((tile, *word));
            },
            None => {
                assert(false);
            },
        }
        k += 1;
    }
    proof {
        assert(tiles_of(out@) =~= sorted@);
        assert forall|tile: u32| #[trigger] last_write(changes@, tile) is Some implies out@.contains(
            (tile, last_write(changes@, tile)->0),
        ) by {
            lemma_last_write(changes@, tile);
            let j = choose|j: int| 0 <= j < changes@.len() && (#[trigger] changes@[j]).0 == tile;
            assert(all[j] == tile as u64);
            assert(all.contains(tile as u64));
            assert(sorted@.contains(tile as u64));
            let l = choose|l: int| 0 <= l < sorted@.len() && sorted@[l] == tile as u64;
            assert(out@[l] == (tile, last_write(changes@, tile)->0));
        }
    }
    out
}

/// A written tile in world coordinates.
pub open spec fn world_write(region: u16, w: (u32, u16)) -> (i32, i32, u16) {
    (
        (region_corner(region as int).0 + w.0 as int % (REGION_SIDE as int)) as i32,
        (region_corner(region as int).1 + w.0 as int / (REGION_SIDE as int)) as i32,
        w.1,
    )
}

/// Whether a tile lies in the window around an anchor.
pub open spec fn in_window(anchor: (i32, i32), t: (i32, i32, u16)) -> bool {
    anchor.0 - WINDOW_HALF <= t.0 < anchor.0 + WINDOW_HALF && anchor.1 - WINDOW_HALF <= t.1 < anchor.1 + WINDOW_HALF
}

/// The written tiles in the window around an anchor.
pub open spec fn window_writes(region: u16, writes: Seq<(u32, u16)>, anchor: (i32, i32)) -> Seq<(i32, i32, u16)> {
    writes.map_values(|w: (u32, u16)| world_write(region, w)).filter(|t: (i32, i32, u16)| in_window(anchor, t))
}

/// Written tiles in world coordinates.
fn world_writes(region: u16, writes: &[(u32, u16)]) -> (r: Vec<(i32, i32, u16)>)
    ensures
        r@ == writes@.map_values(|w: (u32, u16)| world_write(region, w)),
{
    let origin = region_origin(region);
    let ghost f = |w: (u32, u16)| world_write(region, w);
    let mut out: Vec<(i32, i32, u16)> = Vec::new();
    let mut i: usize = 0;
    while i < writes.len()
        invariant
            i <= writes@.len(),
            f == (|w: (u32, u16)| world_write(region, w)),
            (origin.x as int, origin.z as int) == region_corner(region as int),
            0 <= origin.x <= 30720,
            -7680 <= origin.z <= 100_661_760,
            out@ == writes@.take(i as int).map_values(f),
        decreases writes.len() - i,
    {
        let (tile, word): (u32, u16) = writes[i];
        let lx: i32 = (tile % REGION_SIDE as u32) as i32;
        assert(REGION_SIDE == 7680);
        assert(tile / 7680 <= 559_241);
        let lz: i32 = (tile / REGION_SIDE as u32) as i32;
        out.push((origin.x + lx, origin.z + lz, word));
        assert(out@ =~= writes@.take(i + 1).map_values(f));
        i += 1;
    }
    assert(writes@.take(i as int) =~= writes@);
    out
}

/// The tiles in the window around an anchor.
fn tiles_in_window(tiles: &[(i32, i32, u16)], anchor: (i32, i32)) -> (r: Vec<(i32, i32, u16)>)
    ensures
        r@ == tiles@.filter(|t: (i32, i32, u16)| in_window(anchor, t)),
{
    let ghost f = |t: (i32, i32, u16)| in_window(anchor, t);
    let mut out: Vec<(i32, i32, u16)> = Vec::new();
    let mut i: usize = 0;
    proof {
        reveal(Seq::filter);
        assert(tiles@.take(0).filter(f) =~= Seq::<(i32, i32, u16)>::empty());
    }
    while i < tiles.len()
        invariant
            i <= tiles@.len(),
            f == (|t: (i32, i32, u16)| in_window(anchor, t)),
            out@ == tiles@.take(i as int).filter(f),
        decreases tiles.len() - i,
    {
        let (x, z, word): (i32, i32, u16) = tiles[i];
        proof {
            reveal(Seq::filter);
            assert(tiles@.take(i + 1).drop_last() =~= tiles@.take(i as int));
        }
        let dx: i64 = x as i64 - (anchor.0 as i64 - WINDOW_HALF as i64);
        let dz: i64 = z as i64 - (anchor.1 as i64 - WINDOW_HALF as i64);
        if 0 <= dx && dx < WINDOW_WIDTH as i64 && 0 <= dz && dz < WINDOW_WIDTH as i64 {
            out.push((x, z, word));
        }
        i += 1;
    }
    assert(tiles@.take(i as int) =~= tiles@);
    out
}

/// Those who look at the maps, by region.
pub struct ResourceWatchHub {
    regions: IdTable<Vec<Listener>>,
    next_id: u64,
}

/// Who looks at which map.
#[verifier::ext_equal]
pub struct HubModel {
    pub listeners: Map<u64, Seq<Listener>>,
    pub next: u64,
}

impl View for ResourceWatchHub {
    type V = HubModel;

    closed spec fn view(&self) -> HubModel {
        HubModel {
            listeners: Map::new(|r: u64| self.regions@.dom().contains(r), |r: u64| self.regions@[r]@),
            next: self.next_id,
        }
    }
}

/// A list after the entry at a position is taken out and the last one takes its
/// place.
pub open spec fn swapped_out(s: Seq<Listener>, i: int) -> Seq<Listener> {
    if i == s.len() - 1 {
        s.drop_last()
    } else {
        s.update(i, s.last()).drop_last()
    }
}

/// Position of a listener, from `i` on.
pub open spec fn listener_from(s: Seq<Listener>, id: u64, i: int) -> Option<int>
    decreases s.len() - i,
{
    if i < 0 || i >= s.len() {
        None
    } else if s[i].id == id {
        Some(i)
    } else {
        listener_from(s, id, i + 1)
    }
}

impl HubModel {
    /// The listeners of a region.
    pub open spec fn on(self, region: u32) -> Seq<Listener> {
        if self.listeners.dom().contains(region as u64) {
            self.listeners[region as u64]
        } else {
            Seq::empty()
        }
    }

    /// Whether every number below the next one was given once.
    pub open spec fn valid(self) -> bool {
        &&& forall|r: u64, i: int|
            #![trigger self.listeners[r][i]]
            self.listeners.dom().contains(r) && 0 <= i < self.listeners[r].len() ==> self.listeners[r][i].id < self.next
        &&& forall|r: u64, i: int, j: int|
            #![trigger self.listeners[r][i], self.listeners[r][j]]
            self.listeners.dom().contains(r) && 0 <= i < j < self.listeners[r].len() ==> self.listeners[r][i].id
                != self.listeners[r][j].id
    }

    /// The frames for the listeners of a region after some writes.
    pub open spec fn frames(self, region: u32, writes: Seq<(u32, u16)>, n: nat) -> Seq<(u64, Seq<(i32, i32, u16)>)>
        decreases n,
    {
        if n == 0 {
            Seq::empty()
        } else {
            let before = self.frames(region, writes, (n - 1) as nat);
            let l = self.on(region)[n - 1];
            let tiles = window_writes(map_region(region), writes, l.anchor);
            if tiles.len() == 0 {
                before
            } else {
                before.push((l.id, tiles))
            }
        }
    }
}

/// What a frame tells of tiles.
pub open spec fn frame_is(f: (u64, WatchFrame), region: u32, version: u32, want: (u64, Seq<(i32, i32, u16)>)) -> bool {
    &&& f.0 == want.0
    &&& f.1 matches WatchFrame::Delta { region: r, dict_version: v, tiles: t } && r == region && v == version && t@
        == want.1
}

impl ResourceWatchHub {
    /// The lists are well formed.
    pub closed spec fn wf(&self) -> bool {
        self.regions.wf() && self@.valid()
    }

    /// What [`Self::wf`] says of the listeners.
    pub proof fn lemma_valid(&self)
        requires
            self.wf(),
        ensures
            self@.valid(),
    {
    }

    /// A hub without listeners.
    pub fn new() -> (r: Self)
        ensures
            r.wf(),
            r@ == (HubModel { listeners: Map::empty(), next: 0 }),
    {
        let r = ResourceWatchHub { regions: IdTable::new(), next_id: 0 };
        assert(r@.listeners =~= Map::<u64, Seq<Listener>>::empty());
        r
    }

    /// Number of listeners of a region.
    pub fn listener_count(&self, region: u32) -> (r: usize)
        requires
            self.wf(),
        ensures
            r == self@.on(region).len(),
    {
        match self.regions.get(region as u64) {
            Some(l) => l.len(),
            None => 0,
        }
    }

    /// Whether a region has listeners.
    pub fn has_listeners(&self, region: u32) -> (r: bool)
        requires
            self.wf(),
        ensures
            r <==> self@.on(region).len() > 0,
    {
        self.listener_count(region) > 0
    }

    /// Replaces the list of a region.
    fn put(&mut self, region: u32, list: Vec<Listener>)
        requires
            old(self).regions.wf(),
        ensures
            final(self).regions.wf(),
            final(self)@ == (HubModel {
                listeners: old(self)@.listeners.insert(region as u64, list@),
                ..old(self)@
            }),
    {
        let _ = self.regions.insert(region as u64, list);
        assert(self@.listeners =~= old(self)@.listeners.insert(region as u64, list@));
    }

    /// A copy of the list of a region.
    fn list(&self, region: u32) -> (r: Vec<Listener>)
        requires
            self.regions.wf(),
        ensures
            r@ == self@.on(region),
    {
        let mut out: Vec<Listener> = Vec::new();
        if let Some(l) = self.regions.get(region as u64) {
            let mut i: usize = 0;
            while i < l.len()
                invariant
                    i <= l@.len(),
                    out@ == l@.take(i as int),
                decreases l.len() - i,
            {
                out.push(l[i]);
                assert(out@ =~= l@.take(i + 1));
                i += 1;
            }
            assert(l@.take(i as int) =~= l@);
        }
        out
    }

    /// Somebody starts to look at a map. From now on its changes are recorded.
    pub fn register(&mut self, map: &mut ResourceTileMap, region: u32, player_entity_id: u64, anchor: (i32, i32)) -> (r:
        u64)
        requires
            old(self).wf(),
            old(map).wf(),
            old(self)@.next < u64::MAX,
        ensures
            final(self).wf(),
            final(map).wf(),
            r == old(self)@.next,
            final(self)@ == (HubModel {
                listeners: old(self)@.listeners.insert(
                    region as u64,
                    old(self)@.on(region).push(Listener { id: r, player_entity_id, anchor }),
                ),
                next: (old(self)@.next + 1) as u64,
            }),
            final(map)@ == (MapModel { watch: true, ..old(map)@ }),
    {
        map.set_watch(true);
        let id: u64 = self.next_id;
        let mut list = self.list(region);
        let ghost before = list@;
        list.push(Listener { id, player_entity_id, anchor });
        let ghost after = list@;
        let ghost was = self@;
        self.put(region, list);
        self.next_id = id + 1;
        proof {
            assert(self@.listeners == was.listeners.insert(region as u64, after));
            assert(before == was.on(region));
            assert forall|r: u64, i: int, j: int|
                #![trigger self@.listeners[r][i], self@.listeners[r][j]]
                self@.listeners.dom().contains(r) && 0 <= i < j < self@.listeners[r].len() implies
                self@.listeners[r][i].id != self@.listeners[r][j].id by {
                if r == region as u64 {
                    if j < before.len() {
                        assert(was.listeners[r][i].id != was.listeners[r][j].id);
                    } else {
                        assert(was.listeners[r][i].id < was.next);
                    }
                } else {
                    assert(was.listeners[r][i].id != was.listeners[r][j].id);
                }
            }
            assert forall|r: u64, i: int|
                #![trigger self@.listeners[r][i]]
                self@.listeners.dom().contains(r) && 0 <= i < self@.listeners[r].len() implies
                self@.listeners[r][i].id < self@.next by {
                if r == region as u64 && i == before.len() {
                } else {
                    assert(was.listeners[r][i].id < was.next);
                }
            }
        }
        id
    }

    /// Position of a listener in a list.
    fn find(list: &[Listener], id: u64) -> (r: Option<usize>)
        ensures
            match r {
                Some(i) => listener_from(list@, id, 0) == Some(i as int) && i < list@.len() && list@[i as int].id == id,
                None => listener_from(list@, id, 0) is None && forall|i: int|
                    0 <= i < list@.len() ==> (#[trigger] list@[i]).id != id,
            },
    {
        let mut i: usize = 0;
        while i < list.len()
            invariant
                i <= list@.len(),
                listener_from(list@, id, 0) == listener_from(list@, id, i as int),
                forall|j: int| 0 <= j < i ==> (#[trigger] list@[j]).id != id,
            decreases list.len() - i,
        {
            if list[i].id == id {
                return Some(i);
            }
            i += 1;
        }
        None
    }

    /// Somebody no longer looks at a map. Without another listener its changes
    /// are no longer recorded.
    pub fn unregister(&mut self, map: &mut ResourceTileMap, region: u32, id: u64)
        requires
            old(self).wf(),
            old(map).wf(),
        ensures
            final(self).wf(),
            final(map).wf(),
            ({
                let left = old(self)@.on(region).filter(|l: Listener| l.id != id);
                if !old(self)@.listeners.dom().contains(region as u64) {
                    final(self)@ == old(self)@ && final(map)@ == old(map)@
                } else if left.len() == 0 {
                    &&& final(self)@ == (HubModel {
                        listeners: old(self)@.listeners.remove(region as u64),
                        ..old(self)@
                    })
                    &&& final(map)@ == (MapModel { watch: false, ..old(map)@ })
                } else {
                    &&& final(self)@ == (HubModel {
                        listeners: old(self)@.listeners.insert(region as u64, left),
                        ..old(self)@
                    })
                    &&& final(map)@ == old(map)@
                }
            }),
    {
        if !self.regions.contains(region as u64) {
            return ;
        }
        let ghost keep = |l: Listener| l.id != id;
        let list = self.list(region);
        let ghost was = self@;
        let mut left: Vec<Listener> = Vec::new();
        let mut i: usize = 0;
        proof {
            reveal(Seq::filter);
            assert(list@.take(0).filter(keep) =~= Seq::<Listener>::empty());
        }
        while i < list.len()
            invariant
                i <= list@.len(),
                keep == (|l: Listener| l.id != id),
                left@ == list@.take(i as int).filter(keep),
            decreases list.len() - i,
        {
            proof {
                reveal(Seq::filter);
                assert(list@.take(i + 1).drop_last() =~= list@.take(i as int));
            }
            if list[i].id != id {
                left.push(list[i]);
            }
            i += 1;
        }
        assert(list@.take(i as int) =~= list@);
        if left.len() == 0 {
            let _ = self.regions.remove(region as u64);
            assert(self@.listeners =~= was.listeners.remove(region as u64));
            map.set_watch(false);
        } else {
            let ghost kept = left@;
            self.put(region, left);
            proof {
                if good_list(list@, was.next) {
                    lemma_filtered_listeners(list@, keep, was.next);
                }
                lemma_replaced_list(was, self@, region as u64, kept);
            }
        }
    }

    /// A listener looks at another part of the map.
    pub fn update_anchor(&mut self, region: u32, id: u64, x: i32, z: i32)
        requires
            old(self).wf(),
        ensures
            final(self).wf(),
            final(self)@ == match listener_from(old(self)@.on(region), id, 0) {
                Some(i) => HubModel {
                    listeners: old(self)@.listeners.insert(
                        region as u64,
                        old(self)@.on(region).update(
                            i,
                            Listener { anchor: (x, z), ..old(self)@.on(region)[i] },
                        ),
                    ),
                    ..old(self)@
                },
                None => old(self)@,
            },
    {
        let mut list = self.list(region);
        let ghost was = self@;
        if let Some(i) = Self::find(list.as_slice(), id) {
            let player_entity_id: u64 = list[i].player_entity_id;
            let ghost before = list@;
            list.set(i, Listener { id, player_entity_id, anchor: (x, z) });
            let ghost after = list@;
            self.put(region, list);
            proof {
                assert(after =~= before.update(i as int, Listener { anchor: (x, z), ..before[i as int] }));
                lemma_replaced_list(was, self@, region as u64, after);
            }
        }
    }

    /// The frames that tell the listeners of a region of some writes: each
    /// listener gets the tiles in its window, with their last word. Who sees
    /// none of them gets no frame.
    pub fn fanout(&self, region: u32, changes: &[(u32, u16)], dict_version: u32) -> (r: Vec<(u64, WatchFrame)>)
        requires
            self.wf(),
        ensures
            exists|writes: Seq<(u32, u16)>|
                #![trigger is_collapsed(changes@, writes)]
                {
                    let want = self@.frames(region, writes, self@.on(region).len());
                    &&& is_collapsed(changes@, writes)
                    &&& r@.len() == want.len()
                    &&& forall|k: int| 0 <= k < r@.len() ==> frame_is(#[trigger] r@[k], region, dict_version, want[k])
                },
    {
        let list = self.list(region);
        let writes = collapse(changes);
        let world = world_writes((region % 0x1_0000) as u16, writes.as_slice());
        let ghost m = self@;
        let ghost w = writes@;
        let mut out: Vec<(u64, WatchFrame)> = Vec::new();
        let mut i: usize = 0;
        while i < list.len()
            invariant
                i <= list@.len(),
                m == self@,
                list@ == m.on(region),
                w == writes@,
                world@ == w.map_values(|x: (u32, u16)| world_write(map_region(region), x)),
                out@.len() == m.frames(region, w, i as nat).len(),
                forall|k: int|
                    0 <= k < out@.len() ==> frame_is(
                        #[trigger] out@[k],
                        region,
                        dict_version,
                        m.frames(region, w, i as nat)[k],
                    ),
            decreases list.len() - i,
        {
            let l = list[i];
            let tiles = tiles_in_window(world.as_slice(), l.anchor);
            assert(tiles@ == window_writes(map_region(region), w, l.anchor));
            let ghost before = m.frames(region, w, i as nat);
            let ghost after = m.frames(region, w, (i + 1) as nat);
            if tiles.len() > 0 {
                assert(after == before.push((l.id, tiles@)));
                out.push((l.id, WatchFrame::Delta { region, dict_version, tiles }));
            } else {
                assert(after == before);
            }
            i += 1;
        }
        assert(is_collapsed(changes@, w));
        out
    }

    /// A frame was sent to a listener, or not: who does not receive any more,
    /// or not fast enough, is dropped. Tells whether the listener has to start
    /// over because frames were lost.
    pub fn settle(&mut self, region: u32, id: u64, outcome: SendOutcome) -> (r: bool)
        requires
            old(self).wf(),
        ensures
            final(self).wf(),
            r <==> outcome == SendOutcome::Full,
            final(self)@ == match listener_from(old(self)@.on(region), id, 0) {
                Some(i) => if outcome == SendOutcome::Sent {
                    old(self)@
                } else {
                    HubModel {
                        listeners: old(self)@.listeners.insert(
                            region as u64,
                            swapped_out(old(self)@.on(region), i),
                        ),
                        ..old(self)@
                    }
                },
                None => old(self)@,
            },
            outcome != SendOutcome::Sent ==> forall|i: int|
                0 <= i < final(self)@.on(region).len() ==> (#[trigger] final(self)@.on(region)[i]).id != id,
    {
        if outcome == SendOutcome::Sent {
            return false;
        }
        let mut list = self.list(region);
        let ghost was = self@;
        match Self::find(list.as_slice(), id) {
            Some(i) => {
                let ghost before = list@;
                let _ = list.swap_remove(i);
                let ghost after = list@;
                self.put(region, list);
                proof {
                    assert(after =~= swapped_out(before, i as int));
                    lemma_swapped_listeners(before, i as int);
                    lemma_replaced_list(was, self@, region as u64, after);
                    assert(was.listeners.dom().contains(region as u64));
                    assert forall|j: int| 0 <= j < after.len() implies (#[trigger] after[j]).id != id by {
                        if j == i {
                            assert(was.listeners[region as u64][i as int].id
                                != was.listeners[region as u64][before.len() - 1].id);
                        } else if j < i {
                            assert(was.listeners[region as u64][j].id != was.listeners[region as u64][i as int].id);
                        } else {
                            assert(was.listeners[region as u64][i as int].id != was.listeners[region as u64][j].id);
                        }
                    }
                }
            },
            None => {},
        }
        outcome == SendOutcome::Full
    }

    /// The map of a region was replaced: those who look at it have to fetch
    /// their window anew, and the changes of the new map are recorded.
    pub fn on_grid_replaced(&self, map: &mut ResourceTileMap, region: u32, reason: &'static str) -> (r: Vec<
        (u64, WatchFrame),
    >)
        requires
            self.wf(),
            old(map).wf(),
        ensures
            final(map).wf(),
            final(map)@ == if self@.on(region).len() > 0 {
                MapModel { watch: true, ..old(map)@ }
            } else {
                old(map)@
            },
            r@.len() == self@.on(region).len(),
            forall|k: int|
                0 <= k < r@.len() ==> #[trigger] r@[k] == (
                    self@.on(region)[k].id,
                    WatchFrame::Resync { region, reason },
                ),
    {
        let list = self.list(region);
        let mut out: Vec<(u64, WatchFrame)> = Vec::new();
        if list.len() > 0 {
            map.set_watch(true);
        }
        let mut i: usize = 0;
        while i < list.len()
            invariant
                i <= list@.len(),
                out@.len() == i,
                forall|k: int|
                    0 <= k < i ==> #[trigger] out@[k] == (list@[k].id, WatchFrame::Resync { region, reason }),
            decreases list.len() - i,
        {
            out.push((list[i].id, WatchFrame::Resync { region, reason }));
            i += 1;
        }
        out
    }
}

impl Default for ResourceWatchHub {
    fn default() -> (r: Self)
        ensures
            r.wf(),
            r@ == (HubModel { listeners: Map::<u64, Seq<Listener>>::empty(), next: 0 }),
    {
        let r = ResourceWatchHub::new();
        r
    }
}

/// Whether a list has distinct listeners with numbers below a bound.
spec fn good_list(s: Seq<Listener>, next: u64) -> bool {
    &&& forall|i: int| 0 <= i < s.len() ==> (#[trigger] s[i]).id < next
    &&& forall|i: int, j: int| #![trigger s[i], s[j]] 0 <= i < j < s.len() ==> s[i].id != s[j].id
}

/// A hub stays valid when a list of it is replaced by a good one.
proof fn lemma_replaced_list(was: HubModel, now: HubModel, region: u64, list: Seq<Listener>)
    requires
        was.valid(),
        now == (HubModel { listeners: was.listeners.insert(region, list), ..was }),
        good_list(
            if was.listeners.dom().contains(region) {
                was.listeners[region]
            } else {
                Seq::empty()
            },
            was.next,
        ) ==> good_list(list, was.next),
    ensures
        now.valid(),
{
    if was.listeners.dom().contains(region) {
        let s = was.listeners[region];
        assert forall|i: int| 0 <= i < s.len() implies (#[trigger] s[i]).id < was.next by {
            assert(was.listeners[region][i].id < was.next);
        }
        assert forall|i: int, j: int| #![trigger s[i], s[j]] 0 <= i < j < s.len() implies s[i].id != s[j].id by {
            assert(was.listeners[region][i].id != was.listeners[region][j].id);
        }
    }
    assert(good_list(list, was.next));
    assert forall|r: u64, i: int|
        #![trigger now.listeners[r][i]]
        now.listeners.dom().contains(r) && 0 <= i < now.listeners[r].len() implies now.listeners[r][i].id < now.next by {
        if r == region {
            assert(list[i].id < was.next);
        } else {
            assert(was.listeners[r][i].id < was.next);
        }
    }
    assert forall|r: u64, i: int, j: int|
        #![trigger now.listeners[r][i], now.listeners[r][j]]
        now.listeners.dom().contains(r) && 0 <= i < j < now.listeners[r].len() implies now.listeners[r][i].id
        != now.listeners[r][j].id by {
        if r == region {
            assert(list[i].id != list[j].id);
        } else {
            assert(was.listeners[r][i].id != was.listeners[r][j].id);
        }
    }
}

/// Taking a listener out of a good list leaves a good list.
proof fn lemma_swapped_listeners(s: Seq<Listener>, i: int)
    requires
        0 <= i < s.len(),
    ensures
        forall|next: u64| good_list(s, next) ==> #[trigger] good_list(swapped_out(s, i), next),
{
}

/// Taking listeners out of a good list leaves a good list.
proof fn lemma_filtered_listeners(s: Seq<Listener>, keep: spec_fn(Listener) -> bool, next: u64)
    requires
        good_list(s, next),
    ensures
        good_list(s.filter(keep), next),
    decreases s.len(),
{
    reveal(Seq::filter);
    if s.len() > 0 {
        let short = s.drop_last();
        assert forall|i: int| 0 <= i < short.len() implies (#[trigger] short[i]).id < next by {
            assert(s[i].id < next);
        }
        assert forall|i: int, j: int|
            #![trigger short[i], short[j]]
            0 <= i < j < short.len() implies short[i].id != short[j].id by {
            assert(s[i].id != s[j].id);
        }
        lemma_filtered_listeners(short, keep, next);
        let f = short.filter(keep);
        lemma_filter_members(short, keep);
        assert forall|i: int| 0 <= i < f.len() implies (#[trigger] f[i]).id != s.last().id by {
            let k = choose|k: int| 0 <= k < short.len() && short[k] == f[i];
            assert(s[k].id != s[s.len() - 1].id);
        }
        if keep(s.last()) {
            assert(s.filter(keep) == f.push(s.last()));
            assert(s[s.len() - 1].id < next);
        } else {
            assert(s.filter(keep) == f);
        }
    } else {
        assert(s.filter(keep) =~= s);
    }
}

/// What a filter keeps was there.
proof fn lemma_filter_members(s: Seq<Listener>, keep: spec_fn(Listener) -> bool)
    ensures
        forall|i: int|
            0 <= i < s.filter(keep).len() ==> exists|k: int| 0 <= k < s.len() && s[k] == #[trigger] s.filter(keep)[i],
    decreases s.len(),
{
    reveal(Seq::filter);
    if s.len() > 0 {
        let short = s.drop_last();
        lemma_filter_members(short, keep);
        let f = short.filter(keep);
        assert forall|i: int| 0 <= i < s.filter(keep).len() implies exists|k: int|
            0 <= k < s.len() && s[k] == #[trigger] s.filter(keep)[i] by {
            if i < f.len() {
                assert(s.filter(keep)[i] == f[i]);
                let k = choose|k: int| 0 <= k < short.len() && short[k] == f[i];
                assert(s[k] == f[i]);
            } else {
                assert(s[s.len() - 1] == s.filter(keep)[i]);
            }
        }
    }
}

/// Who fetched the tiles and applies the last write of each tile that was
/// written since has the tiles as they are now.
pub proof fn law_stream_converges(tiles: Seq<u16>, writes: Seq<(u32, u16)>, i: int)
    requires
        0 <= i < tiles.len() <= u32::MAX,
        forall|k: int| 0 <= k < writes.len() ==> (#[trigger] writes[k]).0 < tiles.len(),
    ensures
        replay(tiles, writes).len() == tiles.len(),
        replay(tiles, writes)[i] == match last_write(writes, i as u32) {
            Some(word) => word,
            None => tiles[i],
        },
    decreases writes.len(),
{
    if writes.len() > 0 {
        let short = writes.drop_last();
        assert forall|k: int| 0 <= k < short.len() implies (#[trigger] short[k]).0 < tiles.len() by {
            assert(writes[k].0 < tiles.len());
        }
        law_stream_converges(tiles, short, i);
        assert(writes[writes.len() - 1].0 < tiles.len());
    }
}

/// A listener that could not be sent a frame gets no further ones: it is no
/// longer among the listeners, so frames never go missing unnoticed.
pub proof fn law_dropped_listener_gets_nothing(m: HubModel, region: u32, writes: Seq<(u32, u16)>, id: u64, k: int)
    requires
        forall|i: int| 0 <= i < m.on(region).len() ==> (#[trigger] m.on(region)[i]).id != id,
        0 <= k < m.frames(region, writes, m.on(region).len()).len(),
    ensures
        m.frames(region, writes, m.on(region).len())[k].0 != id,
{
    lemma_frames_go_to_listeners(m, region, writes, m.on(region).len(), k);
}

/// Every frame goes to one of the listeners.
proof fn lemma_frames_go_to_listeners(m: HubModel, region: u32, writes: Seq<(u32, u16)>, n: nat, k: int)
    requires
        n <= m.on(region).len(),
        0 <= k < m.frames(region, writes, n).len(),
    ensures
        exists|i: int| 0 <= i < n && (#[trigger] m.on(region)[i]).id == m.frames(region, writes, n)[k].0,
    decreases n,
{
    if n > 0 {
        let before = m.frames(region, writes, (n - 1) as nat);
        if k < before.len() {
            lemma_frames_go_to_listeners(m, region, writes, (n - 1) as nat, k);
        } else {
            assert(m.on(region)[n - 1].id == m.frames(region, writes, n)[k].0);
        }
    }
}

/// Of several writes to a tile the last one counts, and those to other tiles do
/// not.
pub proof fn law_the_last_write_counts(changes: Seq<(u32, u16)>, w: (u32, u16), tile: u32)
    ensures
        last_write(changes.push(w), w.0) == Some(w.1),
        tile != w.0 ==> last_write(changes.push(w), tile) == last_write(changes, tile),
        last_write(Seq::empty(), tile) is None,
{
    assert(changes.push(w).drop_last() =~= changes);
}

/// Who looks at a map is told of each tile that was written in their window, by
/// its place in the world and its word, and of no other: a window reaches from
/// 200 tiles before its anchor up to 200 behind it.
pub proof fn law_listeners_are_told_of_their_window(
    m: HubModel,
    region: u32,
    writes: Seq<(u32, u16)>,
    i: int,
    j: int,
    k: int,
)
    requires
        0 <= i < m.on(region).len(),
        0 <= j < writes.len(),
        0 <= k < m.frames(region, writes, m.on(region).len()).len(),
    ensures
        ({
            let l = m.on(region)[i];
            let (at, word) = writes[j];
            let x = region_corner(map_region(region) as int).0 + at as int % 7680;
            let z = region_corner(map_region(region) as int).1 + at as int / 7680;
            let frames = m.frames(region, writes, m.on(region).len());
            &&& l.anchor.0 - 200 <= x < l.anchor.0 + 200 && l.anchor.1 - 200 <= z < l.anchor.1 + 200 ==> exists|n: int|
                0 <= n < frames.len() && (#[trigger] frames[n]).0 == l.id && frames[n].1.contains(
                    (x as i32, z as i32, word),
                )
            &&& frames[k].1.len() > 0
            &&& exists|n: int|
                0 <= n < m.on(region).len() && (#[trigger] m.on(region)[n]).id == frames[k].0 && all_near(
                    m.on(region)[n].anchor,
                    frames[k].1,
                )
        }),
{
    let l = m.on(region)[i];
    let (at, word) = writes[j];
    let corner = region_corner(map_region(region) as int);
    let x = corner.0 + at as int % 7680;
    let z = corner.1 + at as int / 7680;
    if l.anchor.0 - 200 <= x < l.anchor.0 + 200 && l.anchor.1 - 200 <= z < l.anchor.1 + 200 {
        let all = writes.map_values(|w: (u32, u16)| world_write(map_region(region), w));
        let near = |t: (i32, i32, u16)| in_window(l.anchor, t);
        assert(all[j] == (x as i32, z as i32, word)) by {
            assert(all[j] == world_write(map_region(region), writes[j]));
        }
        lemma_corner_fits(map_region(region), at);
        assert(near(all[j]));
        all.lemma_filter_contains(near, j);
        let tiles = window_writes(map_region(region), writes, l.anchor);
        assert(tiles.contains((x as i32, z as i32, word)));
        lemma_listener_has_frame(m, region, writes, m.on(region).len(), i);
    }
    lemma_frames_are_near(m, region, writes, m.on(region).len(), k);
}

/// Whether all tiles lie in the window around an anchor.
pub open spec fn all_near(anchor: (i32, i32), tiles: Seq<(i32, i32, u16)>) -> bool {
    forall|n: int|
        0 <= n < tiles.len() ==> anchor.0 - 200 <= (#[trigger] tiles[n]).0 < anchor.0 + 200 && anchor.1 - 200
            <= tiles[n].1 < anchor.1 + 200
}

/// The world coordinates of a tile of a region fit.
proof fn lemma_corner_fits(region: u16, at: u32)
    ensures
        0 <= region_corner(region as int).0 + at as int % 7680 <= i32::MAX,
        i32::MIN <= region_corner(region as int).1 + at as int / 7680 <= i32::MAX,
{
}

/// A listener that sees some of the writes has a frame with what they see.
proof fn lemma_listener_has_frame(m: HubModel, region: u32, writes: Seq<(u32, u16)>, n: nat, i: int)
    requires
        0 <= i < n <= m.on(region).len(),
        window_writes(map_region(region), writes, m.on(region)[i].anchor).len() > 0,
    ensures
        ({
            let l = m.on(region)[i];
            m.frames(region, writes, n).contains((l.id, window_writes(map_region(region), writes, l.anchor)))
        }),
    decreases n,
{
    let l = m.on(region)[i];
    let want = (l.id, window_writes(map_region(region), writes, l.anchor));
    let before = m.frames(region, writes, (n - 1) as nat);
    let after = m.frames(region, writes, n);
    if i < n - 1 {
        lemma_listener_has_frame(m, region, writes, (n - 1) as nat, i);
        let k = choose|k: int| 0 <= k < before.len() && before[k] == want;
        assert(after[k] == want);
    } else {
        assert(after == before.push(want));
        assert(after[before.len() as int] == want);
    }
}

/// A frame has tiles of the window of its listener alone.
proof fn lemma_frames_are_near(m: HubModel, region: u32, writes: Seq<(u32, u16)>, n: nat, k: int)
    requires
        n <= m.on(region).len(),
        0 <= k < m.frames(region, writes, n).len(),
    ensures
        ({
            let frames = m.frames(region, writes, n);
            &&& frames[k].1.len() > 0
            &&& exists|i: int|
                0 <= i < m.on(region).len() && (#[trigger] m.on(region)[i]).id == frames[k].0 && all_near(
                    m.on(region)[i].anchor,
                    frames[k].1,
                )
        }),
    decreases n,
{
    if n > 0 {
        let before = m.frames(region, writes, (n - 1) as nat);
        if k < before.len() {
            lemma_frames_are_near(m, region, writes, (n - 1) as nat, k);
        } else {
            let l = m.on(region)[n - 1];
            let all = writes.map_values(|w: (u32, u16)| world_write(map_region(region), w));
            let near = |t: (i32, i32, u16)| in_window(l.anchor, t);
            let tiles = window_writes(map_region(region), writes, l.anchor);
            assert(all_near(l.anchor, tiles)) by {
                assert forall|t: int| 0 <= t < tiles.len() implies l.anchor.0 - 200 <= (#[trigger] tiles[t]).0
                    < l.anchor.0 + 200 && l.anchor.1 - 200 <= tiles[t].1 < l.anchor.1 + 200 by {
                    all.lemma_filter_pred(near, t);
                }
            }
            assert(m.frames(region, writes, n)[k] == (l.id, tiles));
        }
    }
}

/// A listener that was taken out is gone, and every other one of the region stays.
pub proof fn law_others_keep_listening(s: Seq<Listener>, i: int, other: Listener)
    requires
        0 <= i < s.len(),
        forall|j: int, k: int| 0 <= j < k < s.len() ==> (#[trigger] s[j]).id != (#[trigger] s[k]).id,
    ensures
        swapped_out(s, i).len() == s.len() - 1,
        swapped_out(s, i).contains(other) <==> s.contains(other) && other.id != s[i].id,
        listener_from(s, s[i].id, 0) == Some(i),
{
    let r = swapped_out(s, i);
    let last = s.len() - 1;
    if r.contains(other) {
        let k = choose|k: int| 0 <= k < r.len() && r[k] == other;
        if k == i {
            assert(s[last] == other);
            assert(s[i].id != s[last].id);
        } else {
            assert(s[k] == other);
            assert(k < i ==> s[k].id != s[i].id);
            assert(i < k ==> s[i].id != s[k].id);
        }
    }
    if s.contains(other) && other.id != s[i].id {
        let k = choose|k: int| 0 <= k < s.len() && s[k] == other;
        if k == last {
            assert(r[i] == other);
        } else {
            assert(r[k] == other);
        }
    }
    lemma_listener_at(s, i, 0);
}

proof fn lemma_listener_at(s: Seq<Listener>, i: int, from: int)
    requires
        0 <= from <= i < s.len(),
        forall|j: int, k: int| 0 <= j < k < s.len() ==> (#[trigger] s[j]).id != (#[trigger] s[k]).id,
    ensures
        listener_from(s, s[i].id, from) == Some(i),
    decreases i - from,
{
    if from < i {
        assert(s[from].id != s[i].id);
        lemma_listener_at(s, i, from + 1);
    }
}

} // verus!
