//! Who wants to know when something changes.
//!
//! A key is a topic with an entity. Whoever changes rows notifies the keys that
//! they touch; a key that somebody watches counts up, and whoever holds a
//! receiver looks again. The hub also knows which claims a player is a member
//! of, so that a change of a player reaches the rosters of those claims.

use vstd::prelude::*;

use crate::shared_map::{
    get_pair, insert_pair, new_pairs, pairs_in, remove_pair, set_at, sets_in, PairMap, SetMap,
};
use crate::sorted::{sort_dedup_keys, strictly_ascending};

verus! {

/// What a key is about.
#[derive(Debug, Clone, Copy, PartialEq, Eq, Structural)]
pub enum Topic {
    PlayerInventory,
    PlayerHousing,
    ClaimInventory,
    PlayerCrafts,
    ClaimCrafts,
    ClaimMembers,
    /// Buildings inside a house, by region and dimension; see [`dim_key`].
    DimensionBuildings,
}

/// A region and a dimension as one key.
pub open spec fn dim_key_of(region: u32, dimension: u32) -> u64 {
    (region * 0x1_0000_0000 + dimension) as u64
}

/// A region and a dimension as one key: the region in the upper half.
pub fn dim_key(region: u32, dimension: u32) -> (r: u64)
    ensures
        r == dim_key_of(region, dimension),
{
    region as u64 * 0x1_0000_0000 + dimension as u64
}

/// The region and the dimension of a key.
pub fn unpack_dim_key(key: u64) -> (r: (u32, u32))
    ensures
        dim_key_of(r.0, r.1) == key,
{
    ((key / 0x1_0000_0000) as u32, (key % 0x1_0000_0000) as u32)
}

/// A key is unpacked into what it was made of, and packing loses nothing.
pub proof fn law_dim_key_round_trip(r1: u32, d1: u32, r2: u32, d2: u32)
    ensures
        dim_key_of(r1, d1) == dim_key_of(r2, d2) ==> r1 == r2 && d1 == d2,
{
}

/// A key that is watched: how many receivers there are, and how often it
/// changed.
#[derive(Debug, Clone, Copy, PartialEq, Eq, Structural)]
pub struct Watched {
    pub receivers: u64,
    pub generation: u64,
}

/// The next number; the largest is followed by 0.
pub open spec fn next(n: u64) -> u64 {
    if n == u64::MAX {
        0
    } else {
        (n + 1) as u64
    }
}

/// The next number.
fn step(n: u64) -> (r: u64)
    ensures
        r == next(n),
{
    if n == u64::MAX {
        0
    } else {
        n + 1
    }
}

/// Number of a topic.
pub open spec fn topic_number(t: Topic) -> u8 {
    match t {
        Topic::PlayerInventory => 0,
        Topic::PlayerHousing => 1,
        Topic::ClaimInventory => 2,
        Topic::PlayerCrafts => 3,
        Topic::ClaimCrafts => 4,
        Topic::ClaimMembers => 5,
        Topic::DimensionBuildings => 6,
    }
}

/// Number of a topic.
fn number_of(t: Topic) -> (r: u8)
    ensures
        r == topic_number(t),
{
    match t {
        Topic::PlayerInventory => 0,
        Topic::PlayerHousing => 1,
        Topic::ClaimInventory => 2,
        Topic::PlayerCrafts => 3,
        Topic::ClaimCrafts => 4,
        Topic::ClaimMembers => 5,
        Topic::DimensionBuildings => 6,
    }
}

/// What the hub knows.
#[verifier::ext_equal]
pub struct InterestModel {
    pub watched: Map<(Topic, u64), Watched>,
    /// Claims of each player.
    pub member_of: Map<u64, Set<u64>>,
    pub connections: u64,
    pub leases: u64,
    pub notifies: u64,
    pub pushes: u64,
}

/// A number some steps on; the largest is followed by 0.
pub open spec fn ahead(n: u64, steps: nat) -> u64 {
    ((n + steps) % 0x1_0000_0000_0000_0000) as u64
}

impl InterestModel {
    /// Keys are kept while they are watched, and players while they are members
    /// of a claim.
    pub open spec fn valid(self) -> bool {
        &&& forall|k: (Topic, u64)| #[trigger] self.watched.dom().contains(k) ==> self.watched[k].receivers > 0
        &&& forall|p: u64| #[trigger]
            self.member_of.dom().contains(p) ==> p != 0 && self.member_of[p].finite() && self.member_of[p].len() > 0
                && !self.member_of[p].contains(0)
    }

    /// Whether somebody watches a key.
    pub open spec fn is_watched(self, topic: Topic, id: u64) -> bool {
        self.watched.dom().contains((topic, id)) && self.watched[(topic, id)].receivers > 0
    }

    /// The hub after a notification. A key that nobody watches is left out.
    pub open spec fn notified(self, topic: Topic, id: u64) -> InterestModel {
        if self.is_watched(topic, id) {
            let w = self.watched[(topic, id)];
            InterestModel {
                watched: self.watched.insert(
                    (topic, id),
                    Watched { generation: next(w.generation), ..w },
                ),
                notifies: next(self.notifies),
                ..self
            }
        } else {
            self
        }
    }

    /// The hub after a notification of each of the first `n` of some keys.
    pub open spec fn all_notified(self, topic: Topic, ids: Seq<u64>, n: nat) -> InterestModel
        decreases n,
    {
        if n == 0 {
            self
        } else {
            self.all_notified(topic, ids, (n - 1) as nat).notified(topic, ids[n - 1])
        }
    }

    /// The hub after a notification of each key of a topic in a set.
    pub open spec fn set_notified(self, topic: Topic, ids: Set<u64>) -> InterestModel {
        InterestModel {
            watched: self.watched.map_entries(
                |k: (Topic, u64), w: Watched|
                    if k.0 == topic && ids.contains(k.1) && w.receivers > 0 {
                        Watched { generation: next(w.generation), ..w }
                    } else {
                        w
                    },
            ),
            notifies: ahead(self.notifies, ids.filter(|id: u64| self.is_watched(topic, id)).len()),
            ..self
        }
    }

    /// Claims of a player.
    pub open spec fn claims_of(self, player: u64) -> Set<u64> {
        set_at(self.member_of, player)
    }

    /// The hub after the rosters of a player's claims are notified.
    pub open spec fn rosters_notified(self, player: u64) -> InterestModel {
        self.set_notified(Topic::ClaimMembers, self.claims_of(player))
    }

    /// The hub after the rosters of the first `n` of some players are notified.
    pub open spec fn all_rosters_notified(self, players: Seq<u64>, n: nat) -> InterestModel
        decreases n,
    {
        if n == 0 {
            self
        } else {
            self.all_rosters_notified(players, (n - 1) as nat).rosters_notified(players[n - 1])
        }
    }

    /// The hub after a player became a member of a claim.
    pub open spec fn with_member(self, player: u64, claim: u64) -> InterestModel {
        if player == 0 || claim == 0 {
            self
        } else {
            InterestModel { member_of: self.member_of.insert(player, self.claims_of(player).insert(claim)), ..self }
        }
    }

    /// The hub after a player is no longer a member of a claim.
    pub open spec fn without_member(self, player: u64, claim: u64) -> InterestModel {
        let left = self.claims_of(player).remove(claim);
        if player == 0 || claim == 0 || !self.member_of.dom().contains(player) {
            self
        } else if left == Set::<u64>::empty() {
            InterestModel { member_of: self.member_of.remove(player), ..self }
        } else {
            InterestModel { member_of: self.member_of.insert(player, left), ..self }
        }
    }

    /// The hub after the first `n` of some memberships ended.
    pub open spec fn without_members(self, edges: Seq<(u64, u64)>, n: nat) -> InterestModel
        decreases n,
    {
        if n == 0 {
            self
        } else {
            self.without_members(edges, (n - 1) as nat).without_member(edges[n - 1].0, edges[n - 1].1)
        }
    }

    /// The hub after the first `n` of some memberships began.
    pub open spec fn with_members(self, edges: Seq<(u64, u64)>, n: nat) -> InterestModel
        decreases n,
    {
        if n == 0 {
            self
        } else {
            self.with_members(edges, (n - 1) as nat).with_member(edges[n - 1].0, edges[n - 1].1)
        }
    }

    /// The hub after somebody began to watch a key.
    pub open spec fn subscribed(self, topic: Topic, id: u64) -> InterestModel {
        let w = if self.watched.dom().contains((topic, id)) {
            self.watched[(topic, id)]
        } else {
            Watched { receivers: 0, generation: 0 }
        };
        InterestModel {
            watched: self.watched.insert((topic, id), Watched { receivers: (w.receivers + 1) as u64, ..w }),
            ..self
        }
    }

    /// The hub after a receiver of a key is gone. With the last one the key
    /// goes.
    pub open spec fn released(self, topic: Topic, id: u64) -> InterestModel {
        if self.is_watched(topic, id) {
            let w = self.watched[(topic, id)];
            InterestModel {
                watched: if w.receivers == 1 {
                    self.watched.remove((topic, id))
                } else {
                    self.watched.insert((topic, id), Watched { receivers: (w.receivers - 1) as u64, ..w })
                },
                ..self
            }
        } else {
            self
        }
    }
}

/// The hub that all who change rows and all who watch them share.
pub struct InterestHub {
    /// By the number of a topic and an entity: receivers and generation.
    watched: PairMap,
    members: SetMap,
    connections: u64,
    leases: u64,
    notifies: u64,
    pushes: u64,
}

/// What two numbers say of a key.
spec fn watched_of(v: (u64, u64)) -> Watched {
    Watched { receivers: v.0, generation: v.1 }
}

impl View for InterestHub {
    type V = InterestModel;

    closed spec fn view(&self) -> InterestModel {
        InterestModel {
            watched: Map::new(
                |k: (Topic, u64)| pairs_in(self.watched).dom().contains((topic_number(k.0), k.1)),
                |k: (Topic, u64)| watched_of(pairs_in(self.watched)[(topic_number(k.0), k.1)]),
            ),
            member_of: sets_in(self.members),
            connections: self.connections,
            leases: self.leases,
            notifies: self.notifies,
            pushes: self.pushes,
        }
    }
}

impl InterestHub {
    /// Whether what the hub knows is in order.
    pub open spec fn wf(&self) -> bool {
        self@.valid()
    }

    /// A hub that nobody uses.
    pub fn new() -> (r: Self)
        ensures
            r.wf(),
            r@ == (InterestModel {
                watched: Map::empty(),
                member_of: Map::empty(),
                connections: 0,
                leases: 0,
                notifies: 0,
                pushes: 0,
            }),
    {
        let r = InterestHub {
            watched: new_pairs(),
            members: SetMap::new(),
            connections: 0,
            leases: 0,
            notifies: 0,
            pushes: 0,
        };
        assert(r@.watched =~= Map::<(Topic, u64), Watched>::empty());
        assert(r@.member_of =~= Map::<u64, Set<u64>>::empty());
        r
    }

    /// Whether anybody watches anything.
    pub fn has_subscribers(&self) -> (r: bool)
        ensures
            r <==> self@.leases > 0,
    {
        self.leases > 0
    }

    /// Whether somebody watches a key.
    pub fn is_watched(&self, topic: Topic, entity_id: u64) -> (r: bool)
        requires
            self.wf(),
        ensures
            r <==> self@.is_watched(topic, entity_id),
    {
        match self.lookup(topic, entity_id) {
            Some(w) => w.receivers > 0,
            None => false,
        }
    }

    /// How often a key changed since somebody began to watch it.
    pub fn generation(&self, topic: Topic, entity_id: u64) -> (r: Option<u64>)
        requires
            self.wf(),
        ensures
            r == if self@.watched.dom().contains((topic, entity_id)) {
                Some(self@.watched[(topic, entity_id)].generation)
            } else {
                None
            },
    {
        match self.lookup(topic, entity_id) {
            Some(w) => Some(w.generation),
            None => None,
        }
    }

    pub fn active_connections(&self) -> (r: u64)
        ensures
            r == self@.connections,
    {
        self.connections
    }

    pub fn active_leases(&self) -> (r: u64)
        ensures
            r == self@.leases,
    {
        self.leases
    }

    pub fn lifetime_notifies(&self) -> (r: u64)
        ensures
            r == self@.notifies,
    {
        self.notifies
    }

    pub fn lifetime_pushes(&self) -> (r: u64)
        ensures
            r == self@.pushes,
    {
        self.pushes
    }

    /// Counts a push.
    pub fn record_push(&mut self)
        ensures
            final(self)@ == (InterestModel { pushes: next(old(self)@.pushes), ..old(self)@ }),
            old(self).wf() ==> final(self).wf(),
    {
        self.pushes = step(self.pushes);
        assert(self@ =~= (InterestModel { pushes: next(old(self)@.pushes), ..old(self)@ }));
    }

    /// Takes a connection if fewer than `max` are in use.
    pub fn try_acquire_connection(&mut self, max: u64) -> (r: bool)
        ensures
            r <==> old(self)@.connections < max,
            final(self)@ == if r {
                InterestModel { connections: (old(self)@.connections + 1) as u64, ..old(self)@ }
            } else {
                old(self)@
            },
            old(self).wf() ==> final(self).wf(),
    {
        if self.connections >= max {
            return false;
        }
        self.connections = self.connections + 1;
        assert(self@ =~= (InterestModel { connections: (old(self)@.connections + 1) as u64, ..old(self)@ }));
        true
    }

    /// Gives a connection back.
    pub fn release_connection(&mut self)
        requires
            old(self)@.connections > 0,
        ensures
            final(self)@ == (InterestModel { connections: (old(self)@.connections - 1) as u64, ..old(self)@ }),
            old(self).wf() ==> final(self).wf(),
    {
        self.connections = self.connections - 1;
        assert(self@ =~= (InterestModel { connections: (old(self)@.connections - 1) as u64, ..old(self)@ }));
    }

    /// Stores what is known of a key.
    fn put(&mut self, topic: Topic, entity_id: u64, w: Watched)
        ensures
            final(self)@ == (InterestModel {
                watched: old(self)@.watched.insert((topic, entity_id), w),
                ..old(self)@
            }),
    {
        let _ = insert_pair(&mut self.watched, (number_of(topic), entity_id), (w.receivers, w.generation));
        proof {
            lemma_topics_differ();
            assert(self@.watched =~= old(self)@.watched.insert((topic, entity_id), w));
        }
    }

    /// Drops a key.
    fn drop_key(&mut self, topic: Topic, entity_id: u64)
        ensures
            final(self)@ == (InterestModel { watched: old(self)@.watched.remove((topic, entity_id)), ..old(self)@ }),
    {
        let _ = remove_pair(&mut self.watched, (number_of(topic), entity_id));
        proof {
            lemma_topics_differ();
            assert(self@.watched =~= old(self)@.watched.remove((topic, entity_id)));
        }
    }

    /// What is known of a key.
    fn lookup(&self, topic: Topic, entity_id: u64) -> (r: Option<Watched>)
        ensures
            r == if self@.watched.dom().contains((topic, entity_id)) {
                Some(self@.watched[(topic, entity_id)])
            } else {
                None
            },
    {
        match get_pair(&self.watched, (number_of(topic), entity_id)) {
            Some((receivers, generation)) => Some(Watched { receivers, generation }),
            None => None,
        }
    }

    /// Another receiver of a key.
    pub fn add_receiver(&mut self, topic: Topic, entity_id: u64)
        requires
            old(self).wf(),
            old(self)@.is_watched(topic, entity_id) ==> old(self)@.watched[(topic, entity_id)].receivers < u64::MAX,
        ensures
            final(self).wf(),
            final(self)@ == old(self)@.subscribed(topic, entity_id),
    {
        let w: Watched = match self.lookup(topic, entity_id) {
            Some(w) => w,
            None => Watched { receivers: 0, generation: 0 },
        };
        self.put(topic, entity_id, Watched { receivers: w.receivers + 1, generation: w.generation });
    }

    /// A receiver of a key is gone.
    pub fn drop_receiver(&mut self, topic: Topic, entity_id: u64)
        requires
            old(self).wf(),
        ensures
            final(self).wf(),
            final(self)@ == old(self)@.released(topic, entity_id),
    {
        if let Some(w) = self.lookup(topic, entity_id) {
            if w.receivers == 1 {
                self.drop_key(topic, entity_id);
            } else if w.receivers > 1 {
                self.put(topic, entity_id, Watched { receivers: w.receivers - 1, generation: w.generation });
            }
        }
    }

    /// Somebody begins to watch a key.
    pub fn subscribe(&mut self, topic: Topic, entity_id: u64)
        requires
            old(self).wf(),
            old(self)@.is_watched(topic, entity_id) ==> old(self)@.watched[(topic, entity_id)].receivers < u64::MAX,
        ensures
            final(self).wf(),
            final(self)@ == (InterestModel {
                leases: next(old(self)@.leases),
                ..old(self)@.subscribed(topic, entity_id)
            }),
    {
        self.add_receiver(topic, entity_id);
        self.leases = step(self.leases);
        assert(self@ =~= (InterestModel {
            leases: next(old(self)@.leases),
            ..old(self)@.subscribed(topic, entity_id)
        }));
    }

    /// Somebody no longer watches a key.
    pub fn unsubscribe(&mut self, topic: Topic, entity_id: u64)
        requires
            old(self).wf(),
            old(self)@.leases > 0,
        ensures
            final(self).wf(),
            final(self)@ == (InterestModel {
                leases: (old(self)@.leases - 1) as u64,
                ..old(self)@.released(topic, entity_id)
            }),
    {
        self.drop_receiver(topic, entity_id);
        self.leases = self.leases - 1;
        assert(self@ =~= (InterestModel {
            leases: (old(self)@.leases - 1) as u64,
            ..old(self)@.released(topic, entity_id)
        }));
    }

    /// A key changed. Without a watcher nothing happens.
    pub fn notify(&mut self, topic: Topic, entity_id: u64)
        requires
            old(self).wf(),
        ensures
            final(self).wf(),
            final(self)@ == old(self)@.notified(topic, entity_id),
    {
        if let Some(w) = self.lookup(topic, entity_id) {
            if w.receivers > 0 {
                self.put(topic, entity_id, Watched { receivers: w.receivers, generation: step(w.generation) });
                self.notifies = step(self.notifies);
                assert(self@ =~= old(self)@.notified(topic, entity_id));
            }
        }
    }

    /// Each of some keys changed.
    fn notify_all(&mut self, topic: Topic, ids: &[u64])
        requires
            old(self).wf(),
        ensures
            final(self).wf(),
            final(self)@ == old(self)@.all_notified(topic, ids@, ids@.len()),
    {
        let mut i: usize = 0;
        while i < ids.len()
            invariant
                self.wf(),
                i <= ids@.len(),
                self@ == old(self)@.all_notified(topic, ids@, i as nat),
            decreases ids.len() - i,
        {
            self.notify(topic, ids[i]);
            i += 1;
        }
    }

    /// A player became a member of a claim.
    pub fn note_member(&mut self, player: u64, claim: u64)
        requires
            old(self).wf(),
        ensures
            final(self).wf(),
            final(self)@ == old(self)@.with_member(player, claim),
    {
        if player == 0 || claim == 0 {
            return ;
        }
        self.members.insert(player, claim);
        proof {
            let claims = old(self)@.claims_of(player);
            assert(claims.finite() && !claims.contains(0));
            assert(claims.insert(claim).len() > 0);
            assert(self@.watched =~= old(self)@.watched);
        }
    }

    /// A player is no longer a member of a claim.
    pub fn forget_member(&mut self, player: u64, claim: u64)
        requires
            old(self).wf(),
        ensures
            final(self).wf(),
            final(self)@ == old(self)@.without_member(player, claim),
    {
        if player == 0 || claim == 0 {
            return ;
        }
        let ghost left = old(self)@.claims_of(player).remove(claim);
        let emptied = self.members.remove(player, claim);
        if let Some(empty) = emptied {
            if empty {
                self.members.remove_set(player);
                assert(self@.member_of =~= old(self)@.member_of.remove(player));
            } else {
                assert(left.len() > 0) by {
                    if left.len() == 0 {
                        assert(left =~= Set::<u64>::empty());
                    }
                }
            }
        }
        assert(self@.watched =~= old(self)@.watched);
        assert(self@ =~= old(self)@.without_member(player, claim));
    }

    /// Replaces the memberships of a region.
    pub fn replace_region_members(&mut self, before: &[(u64, u64)], after: &[(u64, u64)])
        requires
            old(self).wf(),
        ensures
            final(self).wf(),
            final(self)@ == old(self)@.without_members(before@, before@.len()).with_members(after@, after@.len()),
    {
        let mut i: usize = 0;
        while i < before.len()
            invariant
                self.wf(),
                i <= before@.len(),
                self@ == old(self)@.without_members(before@, i as nat),
            decreases before.len() - i,
        {
            self.forget_member(before[i].0, before[i].1);
            i += 1;
        }
        let ghost middle = self@;
        let mut j: usize = 0;
        while j < after.len()
            invariant
                self.wf(),
                j <= after@.len(),
                self@ == middle.with_members(after@, j as nat),
            decreases after.len() - j,
        {
            self.note_member(after[j].0, after[j].1);
            j += 1;
        }
    }

    /// The rosters of a player's claims changed.
    pub fn notify_member_rosters(&mut self, player: u64)
        requires
            old(self).wf(),
        ensures
            final(self).wf(),
            final(self)@ == old(self)@.rosters_notified(player),
    {
        let ghost before = self@;
        if let Some(claims) = self.members.members(player) {
            self.notify_all(Topic::ClaimMembers, claims.as_slice());
            proof {
                lemma_notified_set(before, Topic::ClaimMembers, claims@, claims@.len());
                assert(claims@.take(claims@.len() as int) =~= claims@);
            }
        } else {
            proof {
                lemma_notified_set(before, Topic::ClaimMembers, Seq::empty(), 0);
                assert(Seq::<u64>::empty().take(0).to_set() =~= Set::<u64>::empty());
            }
        }
    }
}

/// Notifying the keys of a list without repeats is notifying those of its set.
proof fn lemma_notified_set(m: InterestModel, topic: Topic, ids: Seq<u64>, n: nat)
    requires
        ids.no_duplicates(),
        n <= ids.len(),
    ensures
        m.all_notified(topic, ids, n) == m.set_notified(topic, ids.take(n as int).to_set()),
    decreases n,
{
    let after = m.all_notified(topic, ids, n);
    let set = ids.take(n as int).to_set();
    let counted = set.filter(|id: u64| m.is_watched(topic, id));
    if n == 0 {
        assert(ids.take(0) =~= Seq::<u64>::empty());
        assert(set =~= Set::<u64>::empty());
        assert(counted =~= Set::<u64>::empty());
        assert(m.set_notified(topic, set).watched =~= m.watched);
        assert(after =~= m.set_notified(topic, set));
    } else {
        let (few, all) = (ids.take(n - 1), ids.take(n as int));
        let short = few.to_set();
        let id = ids[n - 1];
        let before = m.all_notified(topic, ids, (n - 1) as nat);
        lemma_notified_set(m, topic, ids, (n - 1) as nat);
        vstd::seq_lib::seq_to_set_is_finite(few);
        assert(all =~= few.push(id));
        assert(all[n - 1] == id);
        assert forall|x: u64| set.contains(x) <==> short.insert(id).contains(x) by {
            if short.contains(x) {
                let i = choose|i: int| 0 <= i < few.len() && #[trigger] few[i] == x;
                assert(all[i] == x);
            }
            if set.contains(x) && x != id {
                let i = choose|i: int| 0 <= i < all.len() && #[trigger] all[i] == x;
                assert(few[i] == x);
            }
        }
        assert(set =~= short.insert(id));
        assert(!short.contains(id)) by {
            if short.contains(id) {
                let i = choose|i: int| 0 <= i < few.len() && #[trigger] few[i] == id;
                assert(ids[i] == ids[n - 1]);
            }
        }
        let fewer = short.filter(|id: u64| m.is_watched(topic, id));
        assert(before.is_watched(topic, id) == m.is_watched(topic, id));
        if m.is_watched(topic, id) {
            assert(counted =~= fewer.insert(id));
        } else {
            assert(counted =~= fewer);
        }
        assert(after.watched =~= m.set_notified(topic, set).watched);
        assert(after =~= m.set_notified(topic, set));
    }
}

/// Topics have distinct numbers.
proof fn lemma_topics_differ()
    ensures
        forall|a: Topic, b: Topic| #[trigger] topic_number(a) == #[trigger] topic_number(b) ==> a == b,
{
}

/// Keys that rows touched in one transaction. Keys that nobody watches are not
/// collected.
pub struct TouchBatch {
    player_inv: Vec<u64>,
    player_housing: Vec<u64>,
    claim_inv: Vec<u64>,
    player_crafts: Vec<u64>,
    claim_crafts: Vec<u64>,
    claim_members: Vec<u64>,
    dim_buildings: Vec<u64>,
    member_players: Vec<u64>,
}

/// What a batch collected.
#[verifier::ext_equal]
pub struct BatchModel {
    pub player_inv: Seq<u64>,
    pub player_housing: Seq<u64>,
    pub claim_inv: Seq<u64>,
    pub player_crafts: Seq<u64>,
    pub claim_crafts: Seq<u64>,
    pub claim_members: Seq<u64>,
    pub dim_buildings: Seq<u64>,
    pub member_players: Seq<u64>,
}

impl View for TouchBatch {
    type V = BatchModel;

    closed spec fn view(&self) -> BatchModel {
        BatchModel {
            player_inv: self.player_inv@,
            player_housing: self.player_housing@,
            claim_inv: self.claim_inv@,
            player_crafts: self.player_crafts@,
            claim_crafts: self.claim_crafts@,
            claim_members: self.claim_members@,
            dim_buildings: self.dim_buildings@,
            member_players: self.member_players@,
        }
    }
}

/// A list after an id, where it is one and somebody watches it.
pub open spec fn touched(s: Seq<u64>, hub: InterestModel, topic: Topic, id: u64) -> Seq<u64> {
    if id != 0 && hub.is_watched(topic, id) {
        s.push(id)
    } else {
        s
    }
}

impl BatchModel {
    /// A batch without keys.
    pub open spec fn empty() -> BatchModel {
        BatchModel {
            player_inv: Seq::empty(),
            player_housing: Seq::empty(),
            claim_inv: Seq::empty(),
            player_crafts: Seq::empty(),
            claim_crafts: Seq::empty(),
            claim_members: Seq::empty(),
            dim_buildings: Seq::empty(),
            member_players: Seq::empty(),
        }
    }

    /// Whether nothing was collected.
    pub open spec fn is_empty(self) -> bool {
        &&& self.player_inv.len() == 0
        &&& self.player_housing.len() == 0
        &&& self.claim_inv.len() == 0
        &&& self.player_crafts.len() == 0
        &&& self.claim_crafts.len() == 0
        &&& self.claim_members.len() == 0
        &&& self.dim_buildings.len() == 0
        &&& self.member_players.len() == 0
    }

    /// Whether each list of a batch is the sorted form of the same list of
    /// another, without repeats.
    pub open spec fn is_sorted_form(self, of: BatchModel) -> bool {
        &&& sorted_form(of.player_inv, self.player_inv)
        &&& sorted_form(of.player_housing, self.player_housing)
        &&& sorted_form(of.claim_inv, self.claim_inv)
        &&& sorted_form(of.player_crafts, self.player_crafts)
        &&& sorted_form(of.claim_crafts, self.claim_crafts)
        &&& sorted_form(of.claim_members, self.claim_members)
        &&& sorted_form(of.dim_buildings, self.dim_buildings)
        &&& sorted_form(of.member_players, self.member_players)
    }

    /// The hub after every key of a sorted batch is notified.
    pub open spec fn flushed(self, hub: InterestModel) -> InterestModel {
        hub.all_notified(Topic::PlayerInventory, self.player_inv, self.player_inv.len()).all_notified(
            Topic::PlayerHousing,
            self.player_housing,
            self.player_housing.len(),
        ).all_notified(Topic::ClaimInventory, self.claim_inv, self.claim_inv.len()).all_notified(
            Topic::PlayerCrafts,
            self.player_crafts,
            self.player_crafts.len(),
        ).all_notified(Topic::ClaimCrafts, self.claim_crafts, self.claim_crafts.len()).all_notified(
            Topic::ClaimMembers,
            self.claim_members,
            self.claim_members.len(),
        ).all_notified(
            Topic::DimensionBuildings,
            self.dim_buildings,
            self.dim_buildings.len(),
        ).all_rosters_notified(self.member_players, self.member_players.len())
    }
}

/// The sorted form of a list, without repeats.
pub open spec fn sorted_form(of: Seq<u64>, s: Seq<u64>) -> bool {
    strictly_ascending(s) && s.to_set() == of.to_set()
}

/// Sorts ids and keeps one of each.
fn dedup_ids(ids: Vec<u64>) -> (r: Vec<u64>)
    ensures
        sorted_form(ids@, r@),
{
    sort_dedup_keys(ids)
}

impl TouchBatch {
    /// A batch without keys.
    pub fn new() -> (r: Self)
        ensures
            r@.is_empty(),
    {
        TouchBatch {
            player_inv: Vec::new(),
            player_housing: Vec::new(),
            claim_inv: Vec::new(),
            player_crafts: Vec::new(),
            claim_crafts: Vec::new(),
            claim_members: Vec::new(),
            dim_buildings: Vec::new(),
            member_players: Vec::new(),
        }
    }

    /// The inventory of a player changed.
    pub fn player_inv(&mut self, hub: &InterestHub, id: u64)
        requires
            hub.wf(),
        ensures
            final(self)@ == (BatchModel {
                player_inv: touched(old(self)@.player_inv, hub@, Topic::PlayerInventory, id),
                ..old(self)@
            }),
    {
        if id != 0 && hub.is_watched(Topic::PlayerInventory, id) {
            self.player_inv.push(id);
        }
    }

    /// The house of a player changed.
    pub fn player_housing(&mut self, hub: &InterestHub, id: u64)
        requires
            hub.wf(),
        ensures
            final(self)@ == (BatchModel {
                player_housing: touched(old(self)@.player_housing, hub@, Topic::PlayerHousing, id),
                ..old(self)@
            }),
    {
        if id != 0 && hub.is_watched(Topic::PlayerHousing, id) {
            self.player_housing.push(id);
        }
    }

    /// The storage of a claim changed.
    pub fn claim_inv(&mut self, hub: &InterestHub, id: u64)
        requires
            hub.wf(),
        ensures
            final(self)@ == (BatchModel {
                claim_inv: touched(old(self)@.claim_inv, hub@, Topic::ClaimInventory, id),
                ..old(self)@
            }),
    {
        if id != 0 && hub.is_watched(Topic::ClaimInventory, id) {
            self.claim_inv.push(id);
        }
    }

    /// The crafts of a player changed.
    pub fn player_crafts(&mut self, hub: &InterestHub, id: u64)
        requires
            hub.wf(),
        ensures
            final(self)@ == (BatchModel {
                player_crafts: touched(old(self)@.player_crafts, hub@, Topic::PlayerCrafts, id),
                ..old(self)@
            }),
    {
        if id != 0 && hub.is_watched(Topic::PlayerCrafts, id) {
            self.player_crafts.push(id);
        }
    }

    /// The crafts of a claim changed.
    pub fn claim_crafts(&mut self, hub: &InterestHub, id: u64)
        requires
            hub.wf(),
        ensures
            final(self)@ == (BatchModel {
                claim_crafts: touched(old(self)@.claim_crafts, hub@, Topic::ClaimCrafts, id),
                ..old(self)@
            }),
    {
        if id != 0 && hub.is_watched(Topic::ClaimCrafts, id) {
            self.claim_crafts.push(id);
        }
    }

    /// The roster of a claim changed.
    pub fn claim_members(&mut self, hub: &InterestHub, id: u64)
        requires
            hub.wf(),
        ensures
            final(self)@ == (BatchModel {
                claim_members: touched(old(self)@.claim_members, hub@, Topic::ClaimMembers, id),
                ..old(self)@
            }),
    {
        if id != 0 && hub.is_watched(Topic::ClaimMembers, id) {
            self.claim_members.push(id);
        }
    }

    /// Something about a player changed that the rosters of its claims show.
    pub fn member_player(&mut self, id: u64)
        ensures
            final(self)@ == (BatchModel {
                member_players: if id != 0 {
                    old(self)@.member_players.push(id)
                } else {
                    old(self)@.member_players
                },
                ..old(self)@
            }),
    {
        if id != 0 {
            self.member_players.push(id);
        }
    }

    /// The buildings in a dimension of a region changed. Dimension 0 is none.
    pub fn dimension_buildings(&mut self, hub: &InterestHub, region: u32, dimension: u32)
        requires
            hub.wf(),
        ensures
            final(self)@ == (BatchModel {
                dim_buildings: if dimension != 0 && hub@.is_watched(
                    Topic::DimensionBuildings,
                    dim_key_of(region, dimension),
                ) {
                    old(self)@.dim_buildings.push(dim_key_of(region, dimension))
                } else {
                    old(self)@.dim_buildings
                },
                ..old(self)@
            }),
    {
        if dimension == 0 {
            return ;
        }
        let key: u64 = dim_key(region, dimension);
        if hub.is_watched(Topic::DimensionBuildings, key) {
            self.dim_buildings.push(key);
        }
    }

    /// Whether nothing was collected.
    pub fn is_empty(&self) -> (r: bool)
        ensures
            r <==> self@.is_empty(),
    {
        self.player_inv.len() == 0 && self.player_housing.len() == 0 && self.claim_inv.len() == 0
            && self.player_crafts.len() == 0 && self.claim_crafts.len() == 0 && self.claim_members.len() == 0
            && self.dim_buildings.len() == 0 && self.member_players.len() == 0
    }

    /// Notifies every key that was collected once.
    pub fn flush(self, hub: &mut InterestHub)
        requires
            old(hub).wf(),
        ensures
            final(hub).wf(),
            exists|sorted: BatchModel|
                #[trigger] sorted.is_sorted_form(self@) && final(hub)@ == sorted.flushed(old(hub)@),
    {
        let player_inv = dedup_ids(self.player_inv);
        let player_housing = dedup_ids(self.player_housing);
        let claim_inv = dedup_ids(self.claim_inv);
        let player_crafts = dedup_ids(self.player_crafts);
        let claim_crafts = dedup_ids(self.claim_crafts);
        let claim_members = dedup_ids(self.claim_members);
        let dim_buildings = dedup_ids(self.dim_buildings);
        let member_players = dedup_ids(self.member_players);
        let ghost sorted = BatchModel {
            player_inv: player_inv@,
            player_housing: player_housing@,
            claim_inv: claim_inv@,
            player_crafts: player_crafts@,
            claim_crafts: claim_crafts@,
            claim_members: claim_members@,
            dim_buildings: dim_buildings@,
            member_players: member_players@,
        };
        assert(sorted.is_sorted_form(self@));
        hub.notify_all(Topic::PlayerInventory, player_inv.as_slice());
        hub.notify_all(Topic::PlayerHousing, player_housing.as_slice());
        hub.notify_all(Topic::ClaimInventory, claim_inv.as_slice());
        hub.notify_all(Topic::PlayerCrafts, player_crafts.as_slice());
        hub.notify_all(Topic::ClaimCrafts, claim_crafts.as_slice());
        hub.notify_all(Topic::ClaimMembers, claim_members.as_slice());
        hub.notify_all(Topic::DimensionBuildings, dim_buildings.as_slice());
        let ghost keyed = hub@;
        let mut i: usize = 0;
        while i < member_players.len()
            invariant
                hub.wf(),
                i <= member_players@.len(),
                hub@ == keyed.all_rosters_notified(member_players@, i as nat),
            decreases member_players.len() - i,
        {
            hub.notify_member_rosters(member_players[i]);
            i += 1;
        }
        assert(hub@ == sorted.flushed(old(hub)@));
    }
}

/// A notification of a key that nobody watches does nothing, and one of a
/// watched key moves that key and no other.
pub proof fn law_notification_reaches_its_key(m: InterestModel, topic: Topic, id: u64, other: (Topic, u64))
    ensures
        !m.is_watched(topic, id) ==> m.notified(topic, id) == m,
        m.is_watched(topic, id) ==> m.notified(topic, id).watched[(topic, id)].generation == next(
            m.watched[(topic, id)].generation,
        ),
        other != (topic, id) ==> (m.notified(topic, id).watched.dom().contains(other) <==> m.watched.dom().contains(
            other,
        )) && m.notified(topic, id).watched[other] == m.watched[other],
        m.notified(topic, id).is_watched(other.0, other.1) <==> m.is_watched(other.0, other.1),
{
}

/// Watching a key and leaving it again leaves the keys as they were.
pub proof fn law_leaving_undoes_watching(m: InterestModel, topic: Topic, id: u64)
    requires
        m.valid(),
        m.is_watched(topic, id) ==> m.watched[(topic, id)].receivers < u64::MAX,
    ensures
        m.subscribed(topic, id).is_watched(topic, id),
        m.subscribed(topic, id).released(topic, id) == m,
{
    assert(m.subscribed(topic, id).released(topic, id).watched =~= m.watched);
    assert(m.subscribed(topic, id).released(topic, id) =~= m);
}

/// A membership that began and ended leaves no trace, where it was not there
/// before.
pub proof fn law_forgetting_undoes_noting(m: InterestModel, player: u64, claim: u64)
    requires
        m.valid(),
        player != 0,
        claim != 0,
        !m.claims_of(player).contains(claim),
    ensures
        m.with_member(player, claim).claims_of(player).contains(claim),
        m.with_member(player, claim).without_member(player, claim) == m,
{
    let s = m.claims_of(player);
    assert(s.insert(claim).remove(claim) =~= s);
    assert(m.with_member(player, claim).without_member(player, claim).member_of =~= m.member_of);
    assert(m.with_member(player, claim).without_member(player, claim) =~= m);
}

/// The rosters of the claims of a player are notified, each of them once, and
/// no other key is.
pub proof fn law_rosters_are_notified_once(m: InterestModel, player: u64, k: (Topic, u64))
    requires
        m.watched.dom().contains(k),
    ensures
        m.rosters_notified(player).watched.dom() == m.watched.dom(),
        m.rosters_notified(player).watched[k].receivers == m.watched[k].receivers,
        m.rosters_notified(player).watched[k].generation == if k.0 == Topic::ClaimMembers && m.claims_of(player).contains(
            k.1,
        ) && m.watched[k].receivers > 0 {
            next(m.watched[k].generation)
        } else {
            m.watched[k].generation
        },
{
    assert(m.rosters_notified(player).watched.dom() =~= m.watched.dom());
}

/// The keys of a topic that a batch has collected.
pub open spec fn keys_of(b: BatchModel, topic: Topic) -> Seq<u64> {
    match topic {
        Topic::PlayerInventory => b.player_inv,
        Topic::PlayerHousing => b.player_housing,
        Topic::ClaimInventory => b.claim_inv,
        Topic::PlayerCrafts => b.player_crafts,
        Topic::ClaimCrafts => b.claim_crafts,
        Topic::ClaimMembers => b.claim_members,
        Topic::DimensionBuildings => b.dim_buildings,
    }
}

/// Whether a hub differs from another in the generations of keys alone, and a
/// key moved just where it was to.
spec fn moved(a: InterestModel, b: InterestModel, k: (Topic, u64), once: bool) -> bool {
    &&& b.is_watched(k.0, k.1) <==> a.is_watched(k.0, k.1)
    &&& b.member_of == a.member_of
    &&& a.is_watched(k.0, k.1) ==> b.watched[k].generation == if once {
        next(a.watched[k].generation)
    } else {
        a.watched[k].generation
    }
}

/// What notifying ascending keys does to a key.
proof fn lemma_all_moved(m: InterestModel, topic: Topic, ids: Seq<u64>, n: nat, k: (Topic, u64))
    requires
        strictly_ascending(ids),
        n <= ids.len(),
    ensures
        moved(m, m.all_notified(topic, ids, n), k, k.0 == topic && ids.take(n as int).contains(k.1)),
    decreases n,
{
    if n > 0 {
        let p = n - 1;
        lemma_all_moved(m, topic, ids, p as nat, k);
        let before = m.all_notified(topic, ids, p as nat);
        law_notification_reaches_its_key(before, topic, ids[p], k);
        let (few, all) = (ids.take(p), ids.take(n as int));
        assert(all =~= few.push(ids[p]));
        assert(all[p] == ids[p]);
        if few.contains(k.1) {
            let j = choose|j: int| 0 <= j < few.len() && few[j] == k.1;
            assert(all[j] == k.1);
            assert(ids[j] == k.1 && j < p);
            assert(ids[j] < ids[p]);
        }
        if all.contains(k.1) && ids[p] != k.1 {
            let j = choose|j: int| 0 <= j < all.len() && all[j] == k.1;
            assert(few[j] == k.1);
        }
    } else {
        assert(!ids.take(0).contains(k.1));
    }
}

/// Notifying all keys of a list.
proof fn lemma_list_moved(m: InterestModel, topic: Topic, of: Seq<u64>, ids: Seq<u64>, k: (Topic, u64))
    requires
        sorted_form(of, ids),
    ensures
        moved(m, m.all_notified(topic, ids, ids.len()), k, k.0 == topic && of.contains(k.1)),
{
    lemma_all_moved(m, topic, ids, ids.len(), k);
    assert(ids.take(ids.len() as int) =~= ids);
    assert(ids.to_set().contains(k.1) <==> of.to_set().contains(k.1));
}

/// Notifying the rosters of players moves no key of another topic, and none of a
/// claim that none of them is a member of.
proof fn lemma_rosters_moved(m: InterestModel, players: Seq<u64>, n: nat, k: (Topic, u64))
    requires
        n <= players.len(),
        k.0 != Topic::ClaimMembers || forall|j: int| 0 <= j < n ==> !m.claims_of(#[trigger] players[j]).contains(k.1),
    ensures
        moved(m, m.all_rosters_notified(players, n), k, false),
    decreases n,
{
    if n > 0 {
        lemma_rosters_moved(m, players, (n - 1) as nat, k);
        let before = m.all_rosters_notified(players, (n - 1) as nat);
        assert(before.claims_of(players[n - 1]) == m.claims_of(players[n - 1]));
        if m.is_watched(k.0, k.1) {
            law_rosters_are_notified_once(before, players[n - 1], k);
        } else {
            let after = before.rosters_notified(players[n - 1]);
            assert(after.watched.dom() =~= before.watched.dom());
        }
    }
}

/// When a batch is flushed, each key that it collected is notified once, in
/// whatever topic, and no other key is; but for the rosters of the claims of
/// the players that it collected, which are notified besides.
pub proof fn law_a_batch_notifies_its_keys_once(
    m: InterestModel,
    batch: BatchModel,
    sorted: BatchModel,
    topic: Topic,
    id: u64,
)
    requires
        sorted.is_sorted_form(batch),
        m.is_watched(topic, id),
        topic != Topic::ClaimMembers || forall|j: int|
            0 <= j < batch.member_players.len() ==> !m.claims_of(#[trigger] batch.member_players[j]).contains(id),
    ensures
        sorted.flushed(m).is_watched(topic, id),
        sorted.flushed(m).watched[(topic, id)].generation == if keys_of(batch, topic).contains(id) {
            next(m.watched[(topic, id)].generation)
        } else {
            m.watched[(topic, id)].generation
        },
        sorted.flushed(m).member_of == m.member_of,
{
    let k = (topic, id);
    let s = sorted;
    let m1 = m.all_notified(Topic::PlayerInventory, s.player_inv, s.player_inv.len());
    let m2 = m1.all_notified(Topic::PlayerHousing, s.player_housing, s.player_housing.len());
    let m3 = m2.all_notified(Topic::ClaimInventory, s.claim_inv, s.claim_inv.len());
    let m4 = m3.all_notified(Topic::PlayerCrafts, s.player_crafts, s.player_crafts.len());
    let m5 = m4.all_notified(Topic::ClaimCrafts, s.claim_crafts, s.claim_crafts.len());
    let m6 = m5.all_notified(Topic::ClaimMembers, s.claim_members, s.claim_members.len());
    let m7 = m6.all_notified(Topic::DimensionBuildings, s.dim_buildings, s.dim_buildings.len());
    lemma_list_moved(m, Topic::PlayerInventory, batch.player_inv, s.player_inv, k);
    lemma_list_moved(m1, Topic::PlayerHousing, batch.player_housing, s.player_housing, k);
    lemma_list_moved(m2, Topic::ClaimInventory, batch.claim_inv, s.claim_inv, k);
    lemma_list_moved(m3, Topic::PlayerCrafts, batch.player_crafts, s.player_crafts, k);
    lemma_list_moved(m4, Topic::ClaimCrafts, batch.claim_crafts, s.claim_crafts, k);
    lemma_list_moved(m5, Topic::ClaimMembers, batch.claim_members, s.claim_members, k);
    lemma_list_moved(m6, Topic::DimensionBuildings, batch.dim_buildings, s.dim_buildings, k);
    if topic == Topic::ClaimMembers {
        assert forall|j: int| 0 <= j < s.member_players.len() implies !m7.claims_of(
            #[trigger] s.member_players[j],
        ).contains(id) by {
            assert(s.member_players.to_set().contains(s.member_players[j]));
            assert(batch.member_players.to_set().contains(s.member_players[j]));
            let i = choose|i: int|
                0 <= i < batch.member_players.len() && batch.member_players[i] == s.member_players[j];
            assert(!m.claims_of(batch.member_players[i]).contains(id));
        }
    }
    lemma_rosters_moved(m7, s.member_players, s.member_players.len(), k);
}

/// The roster of a claim is notified when a player whom a batch collected is a
/// member of it: its generation moves on, once for each such player.
pub proof fn law_rosters_of_collected_players_are_notified(
    m: InterestModel,
    sorted: BatchModel,
    player: u64,
    claim: u64,
)
    requires
        m.is_watched(Topic::ClaimMembers, claim),
        sorted == (BatchModel { member_players: seq![player], ..BatchModel::empty() }),
        m.claims_of(player).contains(claim),
    ensures
        sorted.flushed(m).watched[(Topic::ClaimMembers, claim)].generation == next(
            m.watched[(Topic::ClaimMembers, claim)].generation,
        ),
{
    reveal_with_fuel(InterestModel::all_rosters_notified, 2);
    law_rosters_are_notified_once(m, player, (Topic::ClaimMembers, claim));
}

/// A member of a claim is one until the membership ends; other memberships
/// stay.
pub proof fn law_memberships_last_until_they_end(
    m: InterestModel,
    player: u64,
    claim: u64,
    other: (u64, u64),
)
    requires
        player != 0,
        claim != 0,
    ensures
        m.with_member(player, claim).claims_of(player).contains(claim),
        !m.without_member(player, claim).claims_of(player).contains(claim),
        other != (player, claim) ==> (m.with_member(player, claim).claims_of(other.0).contains(other.1)
            <==> m.claims_of(other.0).contains(other.1)),
        other != (player, claim) ==> (m.without_member(player, claim).claims_of(other.0).contains(other.1)
            <==> m.claims_of(other.0).contains(other.1)),
        m.with_member(player, claim).watched == m.watched,
        m.without_member(player, claim).watched == m.watched,
{
    let left = m.claims_of(player).remove(claim);
    if left == Set::<u64>::empty() {
        assert(!left.contains(other.1));
    }
}

/// A key is collected where it is one and somebody watches it, and only then.
pub proof fn law_watched_keys_are_collected(s: Seq<u64>, hub: InterestModel, topic: Topic, id: u64, other: u64)
    ensures
        id != 0 && hub.is_watched(topic, id) ==> touched(s, hub, topic, id).contains(id),
        id == 0 || !hub.is_watched(topic, id) ==> touched(s, hub, topic, id) == s,
        other != id ==> (touched(s, hub, topic, id).contains(other) <==> s.contains(other)),
{
    let after = touched(s, hub, topic, id);
    if id != 0 && hub.is_watched(topic, id) {
        assert(after[s.len() as int] == id);
        if s.contains(other) {
            let k = choose|k: int| 0 <= k < s.len() && s[k] == other;
            assert(after[k] == other);
        }
        if other != id && after.contains(other) {
            let k = choose|k: int| 0 <= k < after.len() && after[k] == other;
            assert(s[k] == other);
        }
    }
}

} // verus!
