//! The life of a mirror: one session after the other, each of them on tables
//! that were emptied before.

use vstd::prelude::*;

use crate::mirror::apply::MirroredUpdate;
use crate::mirror::runtime::{
    are_ops, detect_schema_change, doubled, has_changes_of, hints_at_schema, is_local, is_not_in, is_plan,
    law_changes_keep_their_table, law_reordering_keeps_tables, reordered, should_refetch_schema, sleep_after,
    update_to_mirrored, FetchedSchema, MirrorSessions, SchemaChanged, TablePlan, UpstreamError, UpstreamTable,
    UpstreamUpdate,
};
use crate::name_table::NameTable;
use crate::text::texts;

verus! {

/// Numbers of the tables of a list that have one.
pub open spec fn numbers_of(names: Seq<Seq<char>>, ids: Map<Seq<char>, u32>, n: nat) -> Seq<u32>
    decreases n,
{
    if n == 0 {
        Seq::empty()
    } else {
        let before = numbers_of(names, ids, (n - 1) as nat);
        if ids.dom().contains(names[n - 1]) {
            before.push(ids[names[n - 1]])
        } else {
            before
        }
    }
}

/// Numbers of the tables that are emptied between two sessions.
pub fn flush_ids(flush: &[String], ids: &NameTable<u32>) -> (r: Vec<u32>)
    requires
        ids.wf(),
    ensures
        r@ == numbers_of(texts(flush@), ids@, flush@.len()),
{
    let mut out: Vec<u32> = Vec::new();
    let mut i: usize = 0;
    while i < flush.len()
        invariant
            ids.wf(),
            i <= flush@.len(),
            out@ == numbers_of(texts(flush@), ids@, i as nat),
        decreases flush.len() - i,
    {
        assert(texts(flush@)[i as int] == flush@[i as int]@);
        if let Some(id) = ids.get(flush[i].as_str()) {
            out.push(*id);
        }
        i += 1;
    }
    out
}

/// Updates that have a local table.
pub open spec fn touches_local(ids: Map<Seq<char>, u32>) -> spec_fn(UpstreamUpdate) -> bool {
    |u: UpstreamUpdate| u.tables@.filter(is_local(ids)).len() > 0
}

/// Whether an update is another one under the numbers of the local tables.
pub open spec fn is_mirrored(ids: Map<Seq<char>, u32>, u: UpstreamUpdate, m: MirroredUpdate) -> bool {
    &&& m.provenance == u.provenance
    &&& m.is_seed == u.is_seed
    &&& are_ops(ids, u.tables@.filter(is_local(ids)), m.ops@)
}

/// Whether updates are those of a list, in its order, under the numbers of the
/// local tables.
pub open spec fn are_mirrored(ids: Map<Seq<char>, u32>, updates: Seq<UpstreamUpdate>, r: Seq<MirroredUpdate>) -> bool {
    &&& r.len() == updates.len()
    &&& forall|i: int| 0 <= i < r.len() ==> is_mirrored(ids, updates[i], #[trigger] r[i])
}

/// Brings updates under the numbers of the local tables. Updates without a
/// local table are left out.
pub fn mirrored_batch(updates: Vec<UpstreamUpdate>, table_ids: &NameTable<u32>) -> (r: Vec<MirroredUpdate>)
    requires
        table_ids.wf(),
    ensures
        are_mirrored(table_ids@, updates@.filter(touches_local(table_ids@)), r@),
{
    let ghost all = updates@;
    let ghost f = touches_local(table_ids@);
    let mut out: Vec<MirroredUpdate> = Vec::new();
    proof {
        reveal(Seq::filter);
        assert(all.take(0).filter(f) =~= Seq::<UpstreamUpdate>::empty());
    }
    for u in it: updates
        invariant
            it.seq() == all,
            table_ids.wf(),
            f == touches_local(table_ids@),
            are_mirrored(table_ids@, all.take(it.index() as int).filter(f), out@),
    {
        let ghost k = it.index() as int;
        let ghost kept = all.take(k).filter(f);
        let ghost whole = u;
        proof {
            reveal(Seq::filter);
            assert(all.take(k + 1).drop_last() =~= all.take(k));
        }
        if let Some(m) = update_to_mirrored(u, table_ids) {
            assert(all.take(k + 1).filter(f) =~= kept.push(whole));
            out.push(m);
        } else {
            assert(all.take(k + 1).filter(f) =~= kept);
        }
    }
    assert(all.take(all.len() as int) =~= all);
    out
}

/// What a mirror is waiting for.
#[derive(Debug)]
pub enum LoopPhase {
    /// The time of the next try.
    Sleeping,
    /// The leave of the coordinator of all mirrors.
    Queueing,
    /// A slot to subscribe in.
    Waiting,
    /// All rows of all tables. The mirror holds its slot.
    Seeding,
    /// The end of the session.
    Following,
    /// The status to say that the mirror is down.
    Leaving { error: Option<UpstreamError>, sleep_secs: u64, next_generation: u64 },
    /// The schema, after an error that may come of an outdated one.
    Checking { error: UpstreamError, sleep_secs: u64, next_generation: u64 },
    /// The clients to be dropped and the tables to be emptied.
    Emptying { sleep_secs: u64, next_generation: u64 },
    /// The observers to start over.
    Telling { sleep_secs: u64, next_generation: u64 },
    /// Nothing: the mirror is over.
    Over,
}

/// What to do for a mirror.
#[derive(Debug)]
pub enum LoopAction {
    Nothing,
    /// Wait for the leave of the coordinator, if there is one.
    AcquirePermit,
    /// Wait for a slot to subscribe in.
    Acquire,
    /// Connect and subscribe, in the order of the tables.
    Connect { generation: u64, pace_seeds: bool },
    /// Give the slot and the leave of the coordinator back.
    ReleaseSlot,
    /// Give the slot back if it is still held, then have the status say that
    /// the mirror is down until the next try.
    MarkDown { release_slot: bool, sleep_secs: u64 },
    FetchSchema,
    /// Drop the clients and empty these tables.
    EmptyTables { tables: Vec<u32> },
    /// Have the observers start over.
    TellObservers { next_generation: u64 },
    Sleep { secs: u64 },
    /// End for good: the schema is another one.
    Stop(SchemaChanged),
    /// End for good: there are no slots any more.
    Fail,
}

/// A mirror of a database.
#[derive(Debug)]
pub struct MirrorLoop {
    pub database: String,
    /// Digest of the schema that the local tables were made from.
    pub schema_hash: [u8; 32],
    /// Number of tables of that schema.
    pub schema_tables: usize,
    /// Numbers of the tables that are emptied between two sessions.
    pub flush: Vec<u32>,
    pub sessions: MirrorSessions,
    pub phase: LoopPhase,
}

/// The time that a session followed the database.
pub open spec fn lived(lived_ms: Option<u64>) -> u64 {
    match lived_ms {
        Some(ms) => ms,
        None => 0,
    }
}

/// The text of an optional name.
pub open spec fn name_in(name: Option<&str>) -> Option<Seq<char>> {
    match name {
        Some(t) => Some(t@),
        None => None,
    }
}

/// Whether an error may come of an outdated schema.
pub open spec fn needs_check(error: Option<UpstreamError>) -> bool {
    error matches Some(e) && hints_at_schema(e)
}

/// Whether a mirror has a session.
pub open spec fn in_session(p: LoopPhase) -> bool {
    p is Seeding || p is Following
}

/// Whether a mirror holds a slot to subscribe in.
pub open spec fn holds_slot(p: LoopPhase) -> bool {
    p is Seeding
}

/// Whether an action leads from a mirror to what it is afterwards.
pub open spec fn stepped(a: MirrorLoop, b: MirrorLoop, act: LoopAction) -> bool {
    if act is Nothing {
        b == a
    } else {
        &&& b.same_mirror(a)
        &&& match (a.phase, b.phase) {
            (LoopPhase::Sleeping, LoopPhase::Queueing) => act is AcquirePermit && b.sessions == a.sessions,
            (LoopPhase::Queueing, LoopPhase::Waiting) => act is Acquire && b.sessions == a.sessions,
            (LoopPhase::Waiting, LoopPhase::Seeding) => {
                &&& b.sessions.generation == a.sessions.generation + 1
                &&& b.sessions.backoff_secs == a.sessions.backoff_secs
                &&& b.sessions.table_order == a.sessions.table_order
                &&& act matches LoopAction::Connect { generation, .. }
                &&& generation == b.sessions.generation
            },
            (LoopPhase::Waiting, LoopPhase::Over) => act is Fail && b.sessions == a.sessions,
            (LoopPhase::Seeding, LoopPhase::Following) => act is ReleaseSlot && b.sessions == a.sessions,
            (LoopPhase::Leaving { error, sleep_secs, next_generation }, LoopPhase::Checking {
                error: e,
                sleep_secs: s,
                next_generation: n,
            }) => {
                &&& act is FetchSchema
                &&& needs_check(error) && error == Some(e)
                &&& s == sleep_secs && n == next_generation
                &&& b.sessions == a.sessions
            },
            (LoopPhase::Leaving { error, sleep_secs, next_generation }, LoopPhase::Emptying {
                sleep_secs: s,
                next_generation: n,
            }) => {
                &&& act matches LoopAction::EmptyTables { tables }
                &&& tables@ == a.flush@
                &&& !needs_check(error)
                &&& s == sleep_secs && n == next_generation
                &&& b.sessions == a.sessions
            },
            (LoopPhase::Checking { sleep_secs, next_generation, .. }, LoopPhase::Emptying {
                sleep_secs: s,
                next_generation: n,
            }) => {
                &&& act matches LoopAction::EmptyTables { tables }
                &&& tables@ == a.flush@
                &&& s == sleep_secs && n == next_generation
                &&& b.sessions == a.sessions
            },
            (LoopPhase::Checking { .. }, LoopPhase::Over) => act is Stop && b.sessions == a.sessions,
            (LoopPhase::Emptying { sleep_secs, next_generation }, LoopPhase::Telling {
                sleep_secs: s,
                next_generation: n,
            }) => {
                &&& act == LoopAction::TellObservers { next_generation }
                &&& s == sleep_secs && n == next_generation
                &&& b.sessions == a.sessions
            },
            (LoopPhase::Telling { sleep_secs, .. }, LoopPhase::Sleeping) => {
                act == (LoopAction::Sleep { secs: sleep_secs }) && b.sessions == a.sessions
            },
            (_, LoopPhase::Leaving { sleep_secs, next_generation, .. }) => {
                &&& in_session(a.phase)
                &&& act == LoopAction::MarkDown { release_slot: holds_slot(a.phase), sleep_secs }
                &&& next_generation == a.sessions.generation + 1
                &&& b.sessions.generation == a.sessions.generation
                &&& exists|failed: Option<Seq<char>>|
                    b.sessions.table_order@ == #[trigger] reordered(a.sessions.table_order@, failed)
            },
            _ => false,
        }
    }
}

/// Copies numbers of tables.
fn copy_ids(ids: &[u32]) -> (r: Vec<u32>)
    ensures
        r@ == ids@,
{
    let mut out: Vec<u32> = Vec::new();
    let mut i: usize = 0;
    while i < ids.len()
        invariant
            i <= ids@.len(),
            out@ == ids@.take(i as int),
        decreases ids.len() - i,
    {
        out.push(ids[i]);
        assert(ids@.take(i + 1) =~= ids@.take(i as int).push(ids@[i as int]));
        i += 1;
    }
    assert(ids@.take(i as int) =~= ids@);
    out
}

impl MirrorLoop {
    /// The wait before a try is in range, and there is room for sessions.
    pub open spec fn wf(&self) -> bool {
        self.sessions.wf() && self.sessions.generation < u64::MAX
    }

    /// Whether nothing but the phase and the sessions differs.
    pub open spec fn same_mirror(&self, other: Self) -> bool {
        &&& self.database == other.database
        &&& self.schema_hash == other.schema_hash
        &&& self.schema_tables == other.schema_tables
        &&& self.flush == other.flush
    }

    /// A mirror before its first session.
    pub fn new(
        database: String,
        schema_hash: [u8; 32],
        schema_tables: usize,
        tables: Vec<String>,
        flush: Vec<u32>,
    ) -> (r: Self)
        ensures
            r.wf(),
            r.database == database,
            r.schema_hash == schema_hash,
            r.schema_tables == schema_tables,
            r.flush == flush,
            r.sessions.generation == 0,
            r.sessions.backoff_secs == 1,
            r.sessions.table_order == tables,
            r.phase is Sleeping,
    {
        MirrorLoop {
            database,
            schema_hash,
            schema_tables,
            flush,
            sessions: MirrorSessions::new(tables),
            phase: LoopPhase::Sleeping,
        }
    }

    /// It is time for a try.
    pub fn awake(&mut self) -> (r: LoopAction)
        ensures
            stepped(*old(self), *final(self), r),
            if old(self).phase is Sleeping {
                final(self).phase is Queueing && r is AcquirePermit
            } else {
                r is Nothing
            },
    {
        match &self.phase {
            LoopPhase::Sleeping => {
                self.phase = LoopPhase::Queueing;
                LoopAction::AcquirePermit
            },
            _ => LoopAction::Nothing,
        }
    }

    /// The coordinator gave leave, or there is none.
    pub fn permit_taken(&mut self) -> (r: LoopAction)
        ensures
            stepped(*old(self), *final(self), r),
            if old(self).phase is Queueing {
                final(self).phase is Waiting && r is Acquire
            } else {
                r is Nothing
            },
    {
        match &self.phase {
            LoopPhase::Queueing => {
                self.phase = LoopPhase::Waiting;
                LoopAction::Acquire
            },
            _ => LoopAction::Nothing,
        }
    }

    /// There is a slot to subscribe in; `others_live` tells whether another
    /// database is being followed.
    pub fn slot_taken(&mut self, others_live: bool) -> (r: LoopAction)
        requires
            old(self).wf(),
        ensures
            stepped(*old(self), *final(self), r),
            final(self).sessions.wf(),
            if old(self).phase is Waiting {
                &&& final(self).phase is Seeding
                &&& final(self).sessions.generation == old(self).sessions.generation + 1
                &&& final(self).sessions.backoff_secs == old(self).sessions.backoff_secs
                &&& final(self).sessions.table_order == old(self).sessions.table_order
                &&& r == LoopAction::Connect {
                    generation: final(self).sessions.generation,
                    pace_seeds: final(self).sessions.generation > 1 || others_live,
                }
            } else {
                r is Nothing
            },
    {
        match &self.phase {
            LoopPhase::Waiting => {
                let start = self.sessions.begin(others_live);
                self.phase = LoopPhase::Seeding;
                LoopAction::Connect { generation: start.generation, pace_seeds: start.pace_seeds }
            },
            _ => LoopAction::Nothing,
        }
    }

    /// There will be no slot any more.
    pub fn slots_closed(&mut self) -> (r: LoopAction)
        ensures
            stepped(*old(self), *final(self), r),
            if old(self).phase is Waiting {
                final(self).phase is Over && r is Fail
            } else {
                r is Nothing
            },
    {
        match &self.phase {
            LoopPhase::Waiting => {
                self.phase = LoopPhase::Over;
                LoopAction::Fail
            },
            _ => LoopAction::Nothing,
        }
    }

    /// The rows of all tables are there: the mirror is live.
    pub fn went_live(&mut self) -> (r: LoopAction)
        ensures
            stepped(*old(self), *final(self), r),
            if old(self).phase is Seeding {
                final(self).phase is Following && r is ReleaseSlot
            } else {
                r is Nothing
            },
    {
        match &self.phase {
            LoopPhase::Seeding => {
                self.phase = LoopPhase::Following;
                LoopAction::ReleaseSlot
            },
            _ => LoopAction::Nothing,
        }
    }

    /// The session is over, with an error or without one; `failed_table` is the
    /// table at which it failed.
    pub fn session_over(
        &mut self,
        lived_ms: Option<u64>,
        error: Option<UpstreamError>,
        failed_table: Option<&str>,
    ) -> (r: LoopAction)
        requires
            old(self).wf(),
        ensures
            stepped(*old(self), *final(self), r),
            final(self).wf(),
            if in_session(old(self).phase) {
                let sleep_secs = sleep_after(old(self).sessions.backoff_secs, lived(lived_ms));
                let next_generation = (old(self).sessions.generation + 1) as u64;
                &&& final(self).sessions.generation == old(self).sessions.generation
                &&& final(self).sessions.backoff_secs == doubled(sleep_secs)
                &&& final(self).sessions.table_order@ == reordered(
                    old(self).sessions.table_order@,
                    name_in(failed_table),
                )
                &&& final(self).phase == LoopPhase::Leaving { error, sleep_secs, next_generation }
                &&& r == LoopAction::MarkDown { release_slot: holds_slot(old(self).phase), sleep_secs }
            } else {
                r is Nothing
            },
    {
        let release_slot: bool = match &self.phase {
            LoopPhase::Seeding => true,
            LoopPhase::Following => false,
            _ => {
                return LoopAction::Nothing;
            },
        };
        let ghost failed = name_in(failed_table);
        let end = self.sessions.end(lived_ms, failed_table);
        assert(self.sessions.table_order@ == reordered(old(self).sessions.table_order@, failed));
        let sleep_secs: u64 = end.sleep_secs;
        self.phase = LoopPhase::Leaving { error, sleep_secs, next_generation: end.next_generation };
        LoopAction::MarkDown { release_slot, sleep_secs }
    }

    /// The status says that the mirror is down.
    pub fn marked_down(&mut self) -> (r: LoopAction)
        ensures
            stepped(*old(self), *final(self), r),
            match old(self).phase {
                LoopPhase::Leaving { error, .. } => if needs_check(error) {
                    final(self).phase is Checking && r is FetchSchema
                } else {
                    final(self).phase is Emptying && r is EmptyTables
                },
                _ => r is Nothing,
            },
    {
        let mut phase = LoopPhase::Over;
        std::mem::swap(&mut phase, &mut self.phase);
        match phase {
            LoopPhase::Leaving { error, sleep_secs, next_generation } => {
                if let Some(e) = error {
                    if should_refetch_schema(&e) {
                        self.phase = LoopPhase::Checking { error: e, sleep_secs, next_generation };
                        return LoopAction::FetchSchema;
                    }
                }
                self.phase = LoopPhase::Emptying { sleep_secs, next_generation };
                LoopAction::EmptyTables { tables: copy_ids(self.flush.as_slice()) }
            },
            other => {
                self.phase = other;
                LoopAction::Nothing
            },
        }
    }

    /// The schema was fetched, or could not be. Another schema ends the mirror.
    pub fn schema_fetched(&mut self, fetched: Option<FetchedSchema>) -> (r: LoopAction)
        ensures
            stepped(*old(self), *final(self), r),
            match old(self).phase {
                LoopPhase::Checking { error, .. } => {
                    if hints_at_schema(error) && fetched is Some && fetched->Some_0.hash@ != old(self).schema_hash@ {
                        &&& final(self).phase is Over
                        &&& r matches LoopAction::Stop(c)
                        &&& c.database@ == old(self).database@
                        &&& c.old_hash@ == old(self).schema_hash@
                        &&& c.new_hash@ == fetched->Some_0.hash@
                        &&& c.old_tables == old(self).schema_tables
                        &&& c.new_tables == fetched->Some_0.tables
                    } else {
                        final(self).phase is Emptying && r is EmptyTables
                    }
                },
                _ => r is Nothing,
            },
    {
        let change: Option<SchemaChanged>;
        let sleep_secs: u64;
        let next_generation: u64;
        match &self.phase {
            LoopPhase::Checking { error, sleep_secs: s, next_generation: n } => {
                change =
                detect_schema_change(
                    self.database.as_str(),
                    error,
                    fetched,
                    &self.schema_hash,
                    self.schema_tables,
                );
                sleep_secs = *s;
                next_generation = *n;
            },
            _ => {
                return LoopAction::Nothing;
            },
        }
        match change {
            Some(c) => {
                self.phase = LoopPhase::Over;
                LoopAction::Stop(c)
            },
            None => {
                self.phase = LoopPhase::Emptying { sleep_secs, next_generation };
                LoopAction::EmptyTables { tables: copy_ids(self.flush.as_slice()) }
            },
        }
    }

    /// Clients are dropped and tables are empty, as far as that went well.
    pub fn tables_emptied(&mut self) -> (r: LoopAction)
        ensures
            stepped(*old(self), *final(self), r),
            match old(self).phase {
                LoopPhase::Emptying { next_generation, .. } => {
                    final(self).phase is Telling && r == (LoopAction::TellObservers { next_generation })
                },
                _ => r is Nothing,
            },
    {
        let (sleep_secs, next_generation) = match &self.phase {
            LoopPhase::Emptying { sleep_secs, next_generation } => (*sleep_secs, *next_generation),
            _ => {
                return LoopAction::Nothing;
            },
        };
        self.phase = LoopPhase::Telling { sleep_secs, next_generation };
        LoopAction::TellObservers { next_generation }
    }

    /// The observers start over, as far as they could be told.
    pub fn observers_told(&mut self) -> (r: LoopAction)
        ensures
            stepped(*old(self), *final(self), r),
            match old(self).phase {
                LoopPhase::Telling { sleep_secs, .. } => {
                    final(self).phase is Sleeping && r == (LoopAction::Sleep { secs: sleep_secs })
                },
                _ => r is Nothing,
            },
    {
        let secs: u64 = match &self.phase {
            LoopPhase::Telling { sleep_secs, .. } => *sleep_secs,
            _ => {
                return LoopAction::Nothing;
            },
        };
        self.phase = LoopPhase::Sleeping;
        LoopAction::Sleep { secs }
    }
}

/// Whether a mirror went through states, each with the action that led there.
pub open spec fn is_history(h: Seq<(MirrorLoop, LoopAction)>) -> bool {
    forall|i: int| 0 <= i && i + 1 < h.len() ==> stepped((#[trigger] h[i]).0, h[i + 1].0, h[i + 1].1)
}

/// Whether the state `j` is that of the first session after the one that ended
/// behind the state `i`.
pub open spec fn is_next_session(h: Seq<(MirrorLoop, LoopAction)>, i: int, j: int) -> bool {
    &&& is_history(h)
    &&& 0 <= i < j < h.len()
    &&& in_session(h[i].0.phase)
    &&& in_session(h[j].0.phase)
    &&& i + 1 < j
    &&& forall|k: int| i < k < j ==> !in_session((#[trigger] h[k]).0.phase)
}

/// The actions that lead from the state `i` over `n` states, in order.
pub open spec fn acts_of(h: Seq<(MirrorLoop, LoopAction)>, i: int, n: nat) -> Seq<LoopAction>
    decreases n,
{
    if n == 0 {
        Seq::empty()
    } else {
        let before = acts_of(h, i, (n - 1) as nat);
        if h[i + n].1 is Nothing {
            before
        } else {
            before.push(h[i + n].1)
        }
    }
}

/// The error that a session ended with, and the seconds until the next try, as a
/// mirror that leaves it knows them.
pub open spec fn ended_with(m: MirrorLoop) -> (Option<UpstreamError>, u64) {
    match m.phase {
        LoopPhase::Leaving { error, sleep_secs, .. } => (error, sleep_secs),
        _ => (None, 0),
    }
}

/// What the `k`-th action of a reconnect is, where the schema is looked at. The
/// status says that the mirror is down; the schema is fetched; the clients are
/// dropped and the tables that keep rows are emptied; the observers are told
/// the number of the next session; the mirror sleeps; it asks for leave, then
/// for a slot; it connects under that number.
pub open spec fn is_reconnect_act(ended: MirrorLoop, sleep_secs: u64, k: int, act: LoopAction) -> bool {
    let next_generation = (ended.sessions.generation + 1) as u64;
    if k == 0 {
        act == LoopAction::MarkDown { release_slot: holds_slot(ended.phase), sleep_secs }
    } else if k == 1 {
        act is FetchSchema
    } else if k == 2 {
        act matches LoopAction::EmptyTables { tables } && tables@ == ended.flush@
    } else if k == 3 {
        act == LoopAction::TellObservers { next_generation }
    } else if k == 4 {
        act == LoopAction::Sleep { secs: sleep_secs }
    } else if k == 5 {
        act is AcquirePermit
    } else if k == 6 {
        act is Acquire
    } else {
        act matches LoopAction::Connect { generation, .. } && generation == next_generation
    }
}

/// The place in a full reconnect of the `k`-th action of one that looks at the
/// schema or does not.
pub open spec fn full_place(checked: bool, k: int) -> int {
    if checked || k == 0 {
        k
    } else {
        k + 1
    }
}

/// Whether actions are the first ones of a reconnect.
pub open spec fn begins_reconnect(ended: MirrorLoop, sleep_secs: u64, checked: bool, acts: Seq<LoopAction>) -> bool {
    forall|k: int|
        0 <= k < acts.len() ==> is_reconnect_act(ended, sleep_secs, full_place(checked, k), #[trigger] acts[k])
}

/// Whether actions are those of a whole reconnect, no more and no less.
pub open spec fn is_reconnect(ended: MirrorLoop, sleep_secs: u64, checked: bool, acts: Seq<LoopAction>) -> bool {
    &&& full_place(checked, acts.len() - 1) == 7
    &&& begins_reconnect(ended, sleep_secs, checked, acts)
}

/// Whether a mirror between two sessions has done what its phase tells.
spec fn so_far(m: MirrorLoop, ended: MirrorLoop, last: MirrorLoop, acts: Seq<LoopAction>) -> bool {
    let (error, sleep) = ended_with(last);
    let checked = needs_check(error);
    let at = full_place(checked, acts.len() - 1);
    let next = ended.sessions.generation + 1;
    &&& acts.len() > 0
    &&& begins_reconnect(ended, sleep, checked, acts)
    &&& m.flush == ended.flush
    &&& m.sessions == last.sessions
    &&& m.sessions.generation == ended.sessions.generation
    &&& match m.phase {
        LoopPhase::Leaving { error: e, sleep_secs, next_generation } => {
            at == 0 && e == error && sleep_secs == sleep && next_generation == next
        },
        LoopPhase::Checking { sleep_secs, next_generation, .. } => {
            checked && at == 1 && sleep_secs == sleep && next_generation == next
        },
        LoopPhase::Emptying { sleep_secs, next_generation } => {
            at == 2 && sleep_secs == sleep && next_generation == next
        },
        LoopPhase::Telling { sleep_secs, .. } => at == 3 && sleep_secs == sleep,
        LoopPhase::Sleeping => at == 4,
        LoopPhase::Queueing => at == 5,
        LoopPhase::Waiting => at == 6,
        LoopPhase::Over => true,
        _ => false,
    }
}

/// One more action of a mirror between two sessions.
#[verifier::spinoff_prover]
proof fn lemma_one_act_more(
    a: MirrorLoop,
    b: MirrorLoop,
    act: LoopAction,
    ended: MirrorLoop,
    last: MirrorLoop,
    acts: Seq<LoopAction>,
)
    requires
        so_far(a, ended, last, acts),
        stepped(a, b, act),
        !(a.phase is Over),
        !(act is Nothing),
        !in_session(b.phase),
        !(b.phase is Over),
    ensures
        so_far(b, ended, last, acts.push(act)),
{
    let more = acts.push(act);
    assert(more.last() == act);
    assert forall|k: int| 0 <= k < more.len() implies is_reconnect_act(
        ended,
        ended_with(last).1,
        full_place(needs_check(ended_with(last).0), k),
        #[trigger] more[k],
    ) by {
        if k < acts.len() {
            assert(more[k] == acts[k]);
        }
    }
}

/// What a mirror has done between two sessions.
#[verifier::spinoff_prover]
proof fn lemma_so_far(h: Seq<(MirrorLoop, LoopAction)>, i: int, j: int, n: nat)
    requires
        is_next_session(h, i, j),
        1 <= n < j - i,
    ensures
        h[i + n].0.phase is Over || so_far(h[i + n].0, h[i].0, h[i + 1].0, acts_of(h, i, n)),
    decreases n,
{
    let m = (n - 1) as nat;
    assert(stepped(h[i + m].0, h[i + m + 1].0, h[i + m + 1].1));
    assert(!in_session(h[i + n].0.phase));
    if n == 1 {
        reveal_with_fuel(acts_of, 2);
        assert(acts_of(h, i, 1) =~= seq![h[i + 1].1]);
    } else {
        lemma_so_far(h, i, j, m);
        assert(!in_session(h[i + m].0.phase));
        if !(h[i + m].0.phase is Over) && !(h[i + n].1 is Nothing) && !(h[i + n].0.phase is Over) {
            lemma_one_act_more(h[i + m].0, h[i + n].0, h[i + n].1, h[i].0, h[i + 1].0, acts_of(h, i, m));
        }
    }
}

/// Between two sessions a mirror does just this, in this order, whatever else
/// happens in the meantime: it is marked down; the schema is fetched, where the
/// error of the session may come of another one; the clients are dropped and
/// the tables that keep rows are emptied; the observers are told the number of
/// the next session; it sleeps; it asks anew for leave, and for a slot; it
/// connects. The next session has the next number, and subscribes in the order
/// of tables that the end of the last one left.
pub proof fn law_reconnects_run_in_order(h: Seq<(MirrorLoop, LoopAction)>, i: int, j: int)
    requires
        is_next_session(h, i, j),
    ensures
        ({
            let (error, sleep_secs) = ended_with(h[i + 1].0);
            is_reconnect(h[i].0, sleep_secs, needs_check(error), acts_of(h, i, (j - i) as nat))
        }),
        h[j].0.sessions.generation == h[i].0.sessions.generation + 1,
        h[j].0.sessions.table_order == h[i + 1].0.sessions.table_order,
        exists|failed: Option<Seq<char>>|
            h[j].0.sessions.table_order@ == #[trigger] reordered(h[i].0.sessions.table_order@, failed),
{
    let n = (j - i - 1) as nat;
    let (error, sleep_secs) = ended_with(h[i + 1].0);
    let checked = needs_check(error);
    lemma_so_far(h, i, j, n);
    assert(stepped(h[j - 1].0, h[j - 1 + 1].0, h[j - 1 + 1].1));
    assert(!in_session(h[j - 1].0.phase));
    let acts = acts_of(h, i, n);
    let more = acts_of(h, i, (n + 1) as nat);
    assert(h[i + n].0.phase is Waiting);
    assert(more =~= acts.push(h[j].1));
    assert forall|k: int| 0 <= k < more.len() implies is_reconnect_act(
        h[i].0,
        sleep_secs,
        full_place(checked, k),
        #[trigger] more[k],
    ) by {
        if k < acts.len() {
            assert(more[k] == acts[k]);
        }
    }
}

/// The table at which a session failed is the first that the next one
/// subscribes to.
pub proof fn law_the_failed_table_comes_first(h: Seq<(MirrorLoop, LoopAction)>, i: int, j: int, failed: Seq<char>)
    requires
        is_next_session(h, i, j),
        h[i + 1].0.sessions.table_order@ == reordered(h[i].0.sessions.table_order@, Some(failed)),
        texts(h[i].0.sessions.table_order@).contains(failed),
    ensures
        texts(h[j].0.sessions.table_order@)[0] == failed,
{
    law_reconnects_run_in_order(h, i, j);
    law_reordering_keeps_tables(h[i].0.sessions.table_order@, Some(failed));
}

/// What is emptied between two sessions are the tables that keep rows: each of
/// them that has a number, and no event table that is passed on.
pub proof fn law_only_state_tables_are_emptied(
    tables: Seq<Seq<char>>,
    allowed: Seq<Seq<char>>,
    events: Seq<Seq<char>>,
    plan: TablePlan,
    ids: Map<Seq<char>, u32>,
    name: Seq<char>,
)
    requires
        is_plan(tables, allowed, events, plan),
        ids.dom().contains(name),
        forall|a: Seq<char>, b: Seq<char>|
            #![trigger ids[a], ids[b]]
            ids.dom().contains(a) && ids.dom().contains(b) && ids[a] == ids[b] ==> a == b,
    ensures
        numbers_of(texts(plan.flush@), ids, plan.flush@.len()).contains(ids[name]) <==> texts(
            plan.subscribe@,
        ).contains(name) && !texts(plan.forwarded@).contains(name),
{
    let flush = texts(plan.flush@);
    let subscribe = texts(plan.subscribe@);
    let keep = is_not_in(texts(plan.forwarded@));
    lemma_numbers_of(flush, ids, flush.len(), name);
    assert(flush.take(flush.len() as int) =~= flush);
    if flush.contains(name) {
        let k = choose|k: int| 0 <= k < flush.len() && flush[k] == name;
        subscribe.lemma_filter_pred(keep, k);
        subscribe.lemma_filter_contains_rev(keep, name);
    }
    if subscribe.contains(name) && keep(name) {
        let k = choose|k: int| 0 <= k < subscribe.len() && subscribe[k] == name;
        subscribe.lemma_filter_contains(keep, k);
    }
}

/// Which numbers a list of names has.
proof fn lemma_numbers_of(names: Seq<Seq<char>>, ids: Map<Seq<char>, u32>, n: nat, name: Seq<char>)
    requires
        n <= names.len(),
        ids.dom().contains(name),
        forall|a: Seq<char>, b: Seq<char>|
            #![trigger ids[a], ids[b]]
            ids.dom().contains(a) && ids.dom().contains(b) && ids[a] == ids[b] ==> a == b,
    ensures
        numbers_of(names, ids, n).contains(ids[name]) <==> names.take(n as int).contains(name),
    decreases n,
{
    if n > 0 {
        let p = (n - 1) as nat;
        lemma_numbers_of(names, ids, p, name);
        let (few, all) = (names.take(p as int), names.take(n as int));
        let (before, after) = (numbers_of(names, ids, p), numbers_of(names, ids, n));
        assert(all =~= few.push(names[n - 1]));
        assert(all[n - 1] == names[n - 1]);
        if few.contains(name) {
            let k = choose|k: int| 0 <= k < few.len() && few[k] == name;
            assert(all[k] == name);
        }
        if all.contains(name) && names[n - 1] != name {
            let k = choose|k: int| 0 <= k < all.len() && all[k] == name;
            assert(few[k] == name);
        }
        if before.contains(ids[name]) {
            let k = choose|k: int| 0 <= k < before.len() && before[k] == ids[name];
            assert(after[k] == ids[name]);
        }
        if ids.dom().contains(names[n - 1]) {
            assert(after.last() == ids[names[n - 1]]);
            if after.contains(ids[name]) && names[n - 1] != name {
                let k = choose|k: int| 0 <= k < after.len() && after[k] == ids[name];
                assert(before[k] == ids[name]);
            }
            if names[n - 1] == name {
                assert(after[after.len() - 1] == ids[name]);
            }
        }
    }
}

/// A slot is held from the connection until the mirror is live or the session
/// over: then it is given back, and none is given back that was not held.
pub proof fn law_slots_are_given_back(a: MirrorLoop, b: MirrorLoop, act: LoopAction)
    requires
        stepped(a, b, act),
    ensures
        !holds_slot(a.phase) && holds_slot(b.phase) <==> act is Connect,
        holds_slot(a.phase) && !holds_slot(b.phase) <==> act is ReleaseSlot || (act matches LoopAction::MarkDown {
            release_slot,
            ..
        } && release_slot),
{
}

/// A mirror that is over stays so.
pub proof fn law_the_end_of_a_mirror_is_final(h: Seq<(MirrorLoop, LoopAction)>, i: int, j: int)
    requires
        is_history(h),
        0 <= i <= j < h.len(),
        h[i].0.phase is Over,
    ensures
        h[j].0 == h[i].0,
    decreases j,
{
    if j > i {
        law_the_end_of_a_mirror_is_final(h, i, j - 1);
        assert(stepped(h[j - 1].0, h[j - 1 + 1].0, h[j - 1 + 1].1));
    }
}

/// The tables that are emptied are those of the list that are there locally, by
/// their numbers.
pub proof fn law_tables_are_emptied_by_number(names: Seq<Seq<char>>, ids: Map<Seq<char>, u32>, n: nat, x: u32)
    requires
        n <= names.len(),
    ensures
        numbers_of(names, ids, n).contains(x) <==> exists|i: int|
            0 <= i < n && ids.dom().contains(#[trigger] names[i]) && ids[names[i]] == x,
    decreases n,
{
    let r = numbers_of(names, ids, n);
    if n > 0 {
        let p = (n - 1) as nat;
        let before = numbers_of(names, ids, p);
        law_tables_are_emptied_by_number(names, ids, p, x);
        if before.contains(x) {
            let k = choose|k: int| 0 <= k < before.len() && before[k] == x;
            assert(r[k] == x);
        }
        if ids.dom().contains(names[n - 1]) && ids[names[n - 1]] == x {
            assert(r[before.len() as int] == x);
        }
        if r.contains(x) && !before.contains(x) {
            let k = choose|k: int| 0 <= k < r.len() && r[k] == x;
            assert(k == before.len() || before[k] == x);
            assert(ids.dom().contains(names[n - 1]));
        }
    }
}

/// Whether an update that is passed on tells of another: it comes from the same
/// place, is a seed just if that one is, and holds the changes of a table.
pub open spec fn tells_of(ids: Map<Seq<char>, u32>, u: UpstreamUpdate, t: UpstreamTable, m: MirroredUpdate) -> bool {
    &&& m.provenance == u.provenance
    &&& m.is_seed == u.is_seed
    &&& exists|j: int| 0 <= j < m.ops@.len() && has_changes_of(ids, t, #[trigger] m.ops@[j])
}

/// The changes of every table that is there locally are passed on, with where
/// they come from and whether they are a seed; whatever is passed on tells of an
/// update that came.
pub proof fn law_updates_are_passed_on(
    ids: Map<Seq<char>, u32>,
    updates: Seq<UpstreamUpdate>,
    r: Seq<MirroredUpdate>,
    i: int,
    t: int,
)
    requires
        are_mirrored(ids, updates.filter(touches_local(ids)), r),
    ensures
        0 <= i < updates.len() && 0 <= t < updates[i].tables@.len() && ids.dom().contains(
            updates[i].tables@[t].table_name@,
        ) ==> exists|k: int|
            0 <= k < r.len() && tells_of(ids, updates[i], updates[i].tables@[t], #[trigger] r[k]),
        0 <= i < r.len() && 0 <= t < r[i].ops@.len() ==> exists|k: int, j: int|
            0 <= k < updates.len() && 0 <= j < updates[k].tables@.len() && r[i].provenance == updates[k].provenance
                && r[i].is_seed == updates[k].is_seed && has_changes_of(
                ids,
                #[trigger] updates[k].tables@[j],
                r[i].ops@[t],
            ),
{
    let f = touches_local(ids);
    let kept = updates.filter(f);
    if 0 <= i < updates.len() && 0 <= t < updates[i].tables@.len() && ids.dom().contains(
        updates[i].tables@[t].table_name@,
    ) {
        let tables = updates[i].tables@;
        tables.lemma_filter_contains(is_local(ids), t);
        assert(f(updates[i]));
        updates.lemma_filter_contains(f, i);
        let k = choose|k: int| 0 <= k < kept.len() && kept[k] == updates[i];
        assert(is_mirrored(ids, kept[k], r[k]));
        law_changes_keep_their_table(ids, tables, r[k].ops@, t);
        assert(tells_of(ids, updates[i], tables[t], r[k]));
    }
    if 0 <= i < r.len() && 0 <= t < r[i].ops@.len() {
        assert(is_mirrored(ids, kept[i], r[i]));
        assert(kept.contains(kept[i]));
        updates.lemma_filter_contains_rev(f, kept[i]);
        let k = choose|k: int| 0 <= k < updates.len() && updates[k] == kept[i];
        law_changes_keep_their_table(ids, updates[k].tables@, r[i].ops@, t);
    }
}

} // verus!
