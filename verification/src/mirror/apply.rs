//! How rows are applied to the local tables: the first ones in small
//! transactions, later changes in one each.

use vstd::prelude::*;

verus! {

/// Rows in a transaction of the first filling.
pub const SEED_CHUNK_ROWS: usize = 4096;

/// Rows between two reports.
pub const PROGRESS_EVERY: u64 = 50_000;

/// Who changed rows, and how.
#[derive(Debug)]
pub struct ExternalProvenance {
    pub reducer_name: String,
    pub caller_identity: [u8; 32],
    pub caller_connection_id: u128,
    pub timestamp_micros: i64,
    pub request_id: u32,
    pub args: Vec<u8>,
}

/// Changes of a table.
#[derive(Debug)]
pub struct TableOps {
    pub table_id: u32,
    pub deletes: Vec<Vec<u8>>,
    pub inserts: Vec<Vec<u8>>,
}

/// Changes to apply.
#[derive(Debug)]
pub struct MirroredUpdate {
    pub provenance: Option<ExternalProvenance>,
    pub ops: Vec<TableOps>,
    /// Whether these are the rows that a subscription starts with.
    pub is_seed: bool,
}

/// What is told of a change.
#[derive(Debug)]
pub struct MirrorEvent<'a> {
    pub timestamp_micros: i64,
    pub caller_identity: [u8; 32],
    pub caller_connection_id: Option<u128>,
    pub request_id: Option<u32>,
    /// Name and arguments of the reducer, where one is known.
    pub call: Option<(&'a String, &'a Vec<u8>)>,
}

/// What is told of a change: who made it, where that is known; else only the
/// time.
pub fn mirror_event<'a>(provenance: &'a Option<ExternalProvenance>, now_micros: i64) -> (r: MirrorEvent<'a>)
    ensures
        match *provenance {
            Some(p) => {
                &&& r.timestamp_micros == p.timestamp_micros
                &&& r.caller_identity == p.caller_identity
                &&& r.caller_connection_id == Some(p.caller_connection_id)
                &&& r.request_id == Some(p.request_id)
                &&& r.call matches Some(c)
                &&& *c.0 == p.reducer_name
                &&& *c.1 == p.args
            },
            None => {
                &&& r.timestamp_micros == now_micros
                &&& r.caller_identity@ == Seq::new(32, |i: int| 0u8)
                &&& r.caller_connection_id is None
                &&& r.request_id is None
                &&& r.call is None
            },
        },
{
    match provenance {
        Some(p) => MirrorEvent {
            timestamp_micros: p.timestamp_micros,
            caller_identity: p.caller_identity,
            caller_connection_id: Some(p.caller_connection_id),
            request_id: Some(p.request_id),
            call: Some((&p.reducer_name, &p.args)),
        },
        None => {
            let zero: [u8; 32] = [0u8; 32];
            assert(zero@ =~= Seq::new(32, |i: int| 0u8));
            MirrorEvent {
                timestamp_micros: now_micros,
                caller_identity: zero,
                caller_connection_id: None,
                request_id: None,
                call: None,
            }
        },
    }
}

/// Rows that were applied, and how many since the last report.
#[derive(Debug, Clone, Copy, PartialEq, Eq, Structural)]
pub struct SeedApplyProgress {
    pub total: u64,
    pub since_report: u64,
}

impl SeedApplyProgress {
    /// No row was applied.
    pub fn new() -> (r: Self)
        ensures
            r == (SeedApplyProgress { total: 0, since_report: 0 }),
    {
        SeedApplyProgress { total: 0, since_report: 0 }
    }

    /// One more row was applied. Every so many rows the number of rows is
    /// reported.
    pub fn tick(&mut self) -> (r: Option<u64>)
        requires
            old(self).total < u64::MAX,
            old(self).since_report < PROGRESS_EVERY,
        ensures
            final(self).total == old(self).total + 1,
            final(self).since_report < PROGRESS_EVERY,
            if old(self).since_report + 1 == PROGRESS_EVERY {
                final(self).since_report == 0 && r == Some(final(self).total)
            } else {
                final(self).since_report == old(self).since_report + 1 && r is None
            },
    {
        self.total = self.total + 1;
        self.since_report = self.since_report + 1;
        if self.since_report >= PROGRESS_EVERY {
            self.since_report = 0;
            Some(self.total)
        } else {
            None
        }
    }
}

/// A transaction of the first filling of a table.
#[derive(Debug, Clone, Copy, PartialEq, Eq, Structural)]
pub struct SeedChunk {
    /// Whether the table is emptied first.
    pub clear: bool,
    /// The rows from here on.
    pub from: usize,
    /// The rows before this one.
    pub to: usize,
}

/// The transactions that fill a table from the row `from` on.
pub open spec fn chunks_from(rows: int, from: int) -> Seq<SeedChunk>
    decreases rows - from,
{
    if from >= rows {
        Seq::empty()
    } else {
        let to = if from + SEED_CHUNK_ROWS < rows {
            from + SEED_CHUNK_ROWS
        } else {
            rows
        };
        seq![SeedChunk { clear: from == 0, from: from as usize, to: to as usize }] + chunks_from(rows, to)
    }
}

/// The transactions that fill a table: a table without rows is only emptied.
pub open spec fn seed_chunks(rows: int) -> Seq<SeedChunk> {
    if rows == 0 {
        seq![SeedChunk { clear: true, from: 0, to: 0 }]
    } else {
        chunks_from(rows, 0)
    }
}

/// Plans the transactions that fill a table.
pub fn plan_seed(rows: usize) -> (r: Vec<SeedChunk>)
    ensures
        r@ == seed_chunks(rows as int),
{
    let mut out: Vec<SeedChunk> = Vec::new();
    if rows == 0 {
        out.push(SeedChunk { clear: true, from: 0, to: 0 });
        assert(out@ =~= seed_chunks(0));
        return out;
    }
    let mut from: usize = 0;
    assert(out@ + chunks_from(rows as int, 0) =~= seed_chunks(rows as int));
    while from < rows
        invariant
            from <= rows,
            rows > 0,
            out@ + chunks_from(rows as int, from as int) == seed_chunks(rows as int),
        decreases rows - from,
    {
        let left: usize = rows - from;
        let to: usize = if SEED_CHUNK_ROWS < left {
            from + SEED_CHUNK_ROWS
        } else {
            rows
        };
        let ghost before = out@;
        let chunk = SeedChunk { clear: from == 0, from, to };
        out.push(chunk);
        proof {
            let rest = chunks_from(rows as int, to as int);
            assert(chunks_from(rows as int, from as int) == seq![chunk] + rest);
            assert(before + (seq![chunk] + rest) =~= out@ + rest);
        }
        from = to;
    }
    assert(out@ =~= out@ + chunks_from(rows as int, from as int));
    out
}

/// What a table holds after a transaction of the first filling.
pub open spec fn chunk_applied<T>(table: Seq<T>, rows: Seq<T>, c: SeedChunk) -> Seq<T> {
    (if c.clear {
        Seq::empty()
    } else {
        table
    }) + rows.subrange(c.from as int, c.to as int)
}

/// What a table holds after the first `n` transactions.
pub open spec fn chunks_applied<T>(table: Seq<T>, rows: Seq<T>, chunks: Seq<SeedChunk>, n: nat) -> Seq<T>
    decreases n,
{
    if n == 0 {
        table
    } else {
        chunk_applied(chunks_applied(table, rows, chunks, (n - 1) as nat), rows, chunks[n - 1])
    }
}

/// The first filling leaves exactly its rows in a table, in their order,
/// whatever the table held before.
pub proof fn law_seed_replaces_the_table<T>(table: Seq<T>, rows: Seq<T>)
    requires
        rows.len() <= usize::MAX,
    ensures
        ({
            let chunks = seed_chunks(rows.len() as int);
            chunks_applied(table, rows, chunks, chunks.len()) == rows
        }),
{
    let chunks = seed_chunks(rows.len() as int);
    if rows.len() == 0 {
        assert(chunks_applied(table, rows, chunks, 0) == table);
        assert(chunks_applied(table, rows, chunks, 1) =~= rows);
    } else {
        assert(chunks.skip(0) =~= chunks);
        lemma_chunks_fill(table, rows, chunks, 0, 0);
    }
}

/// Transactions from some row on add the rows from there on.
proof fn lemma_chunks_fill<T>(table: Seq<T>, rows: Seq<T>, chunks: Seq<SeedChunk>, n: nat, from: int)
    requires
        0 < rows.len() <= usize::MAX,
        0 <= from <= rows.len(),
        n <= chunks.len(),
        chunks.skip(n as int) == chunks_from(rows.len() as int, from),
        from > 0 ==> chunks_applied(table, rows, chunks, n) == rows.take(from),
    ensures
        chunks_applied(table, rows, chunks, chunks.len()) == rows,
    decreases rows.len() - from,
{
    let all = rows.len() as int;
    if from < all {
        let c = chunks_from(all, from)[0];
        let to = c.to as int;
        assert(chunks[n as int] == chunks.skip(n as int)[0]);
        assert(chunks_from(all, from) == seq![c] + chunks_from(all, to));
        assert(chunks.skip(n as int + 1) =~= chunks_from(all, to)) by {
            assert((seq![c] + chunks_from(all, to)).skip(1) =~= chunks_from(all, to));
            assert(chunks.skip(n as int).skip(1) =~= chunks.skip(n as int + 1));
        }
        assert(chunks_applied(table, rows, chunks, n + 1) =~= rows.take(to));
        lemma_chunks_fill(table, rows, chunks, n + 1, to);
    } else {
        assert(chunks.len() == n);
        assert(rows.take(from) =~= rows);
    }
}

/// A step of a later change.
#[derive(Debug, Clone, Copy, PartialEq, Eq, Structural)]
pub enum RowStep {
    Delete { op: usize, row: usize },
    Insert { op: usize, row: usize },
}

/// The first `d` deletions and `i` insertions of a table.
pub open spec fn table_steps(op: int, d: nat, i: nat) -> Seq<RowStep> {
    Seq::new(
        d + i,
        |k: int|
            if k < d {
                RowStep::Delete { op: op as usize, row: k as usize }
            } else {
                RowStep::Insert { op: op as usize, row: (k - d) as usize }
            },
    )
}

/// The steps of the first `n` tables.
pub open spec fn steps_of(ops: Seq<TableOps>, n: nat) -> Seq<RowStep>
    decreases n,
{
    if n == 0 {
        Seq::empty()
    } else {
        steps_of(ops, (n - 1) as nat) + table_steps(n - 1, ops[n - 1].deletes@.len(), ops[n - 1].inserts@.len())
    }
}

/// Plans the transaction of a later change: table by table, what goes before
/// what comes.
pub fn plan_live(ops: &[TableOps]) -> (r: Vec<RowStep>)
    ensures
        r@ == steps_of(ops@, ops@.len()),
{
    let mut out: Vec<RowStep> = Vec::new();
    let mut t: usize = 0;
    while t < ops.len()
        invariant
            t <= ops@.len(),
            out@ == steps_of(ops@, t as nat),
        decreases ops.len() - t,
    {
        let ghost before = out@;
        let d: usize = ops[t].deletes.len();
        let n: usize = ops[t].inserts.len();
        let mut k: usize = 0;
        assert(out@ =~= before + table_steps(t as int, 0, 0));
        while k < d
            invariant
                t < ops@.len(),
                k <= d,
                out@ == before + table_steps(t as int, k as nat, 0),
            decreases d - k,
        {
            out.push(RowStep::Delete { op: t, row: k });
            k += 1;
            assert(out@ =~= before + table_steps(t as int, k as nat, 0));
        }
        let mut i: usize = 0;
        while i < n
            invariant
                t < ops@.len(),
                i <= n,
                out@ == before + table_steps(t as int, d as nat, i as nat),
            decreases n - i,
        {
            out.push(RowStep::Insert { op: t, row: i });
            i += 1;
            assert(out@ =~= before + table_steps(t as int, d as nat, i as nat));
        }
        t += 1;
    }
    out
}

/// A transaction of an update.
#[derive(Debug)]
pub enum MirrorTx {
    /// Fill the table of this change.
    Seed { op: usize, chunk: SeedChunk },
    /// Apply these steps and tell of them.
    Live { steps: Vec<RowStep> },
}

/// Whether a transaction fills a table.
pub open spec fn is_seed_tx(t: MirrorTx, op: int, chunk: SeedChunk) -> bool {
    t matches MirrorTx::Seed { op: o, chunk: c } && o == op && c == chunk
}

/// Table and rows of the transactions that fill the first `n` tables.
pub open spec fn seed_transactions(ops: Seq<TableOps>, n: nat) -> Seq<(int, SeedChunk)>
    decreases n,
{
    if n == 0 {
        Seq::empty()
    } else {
        seed_transactions(ops, (n - 1) as nat) + seed_chunks(ops[n - 1].inserts@.len() as int).map_values(
            |c: SeedChunk| (n - 1, c),
        )
    }
}

/// Whether transactions are those that fill tables.
pub open spec fn are_seeds(plan: Seq<(int, SeedChunk)>, txs: Seq<MirrorTx>) -> bool {
    &&& txs.len() == plan.len()
    &&& forall|i: int| 0 <= i < plan.len() ==> is_seed_tx(#[trigger] txs[i], plan[i].0, plan[i].1)
}

/// Plans the transactions of an update: the rows that a subscription starts
/// with fill their tables in small transactions, which nobody is told of; all
/// else is one transaction.
pub fn plan_external_update(ops: &[TableOps], is_seed: bool) -> (r: Vec<MirrorTx>)
    ensures
        if is_seed {
            are_seeds(seed_transactions(ops@, ops@.len()), r@)
        } else {
            r@.len() == 1 && (r@[0] matches MirrorTx::Live { steps } && steps@ == steps_of(ops@, ops@.len()))
        },
{
    let mut out: Vec<MirrorTx> = Vec::new();
    if !is_seed {
        out.push(MirrorTx::Live { steps: plan_live(ops) });
        return out;
    }
    let mut t: usize = 0;
    while t < ops.len()
        invariant
            t <= ops@.len(),
            are_seeds(seed_transactions(ops@, t as nat), out@),
        decreases ops.len() - t,
    {
        let chunks = plan_seed(ops[t].inserts.len());
        let ghost before = seed_transactions(ops@, t as nat);
        let ghost more = chunks@.map_values(|c: SeedChunk| (t as int, c));
        let mut k: usize = 0;
        assert(before + more.take(0) =~= before);
        while k < chunks.len()
            invariant
                t < ops@.len(),
                k <= chunks@.len(),
                more == chunks@.map_values(|c: SeedChunk| (t as int, c)),
                are_seeds(before + more.take(k as int), out@),
            decreases chunks.len() - k,
        {
            let tx = MirrorTx::Seed { op: t, chunk: chunks[k] };
            assert(is_seed_tx(tx, more[k as int].0, more[k as int].1));
            out.push(tx);
            assert(before + more.take(k + 1) =~= (before + more.take(k as int)).push(more[k as int]));
            k += 1;
        }
        proof {
            assert(more.take(k as int) =~= more);
            assert(more =~= seed_chunks(ops@[t as int].inserts@.len() as int).map_values(
                |c: SeedChunk| ((t + 1) as nat - 1, c),
            ));
        }
        t += 1;
    }
    out
}

/// The table of a step.
pub open spec fn step_table(s: RowStep) -> int {
    match s {
        RowStep::Delete { op, .. } => op as int,
        RowStep::Insert { op, .. } => op as int,
    }
}

/// Whether a step comes before another one: that of an earlier table, in a table
/// what goes before what comes, and else the earlier row.
pub open spec fn step_before(a: RowStep, b: RowStep) -> bool {
    ||| step_table(a) < step_table(b)
    ||| step_table(a) == step_table(b) && match (a, b) {
        (RowStep::Delete { row: x, .. }, RowStep::Delete { row: y, .. }) => x < y,
        (RowStep::Insert { row: x, .. }, RowStep::Insert { row: y, .. }) => x < y,
        (RowStep::Delete { .. }, RowStep::Insert { .. }) => true,
        (RowStep::Insert { .. }, RowStep::Delete { .. }) => false,
    }
}

/// Whether a step is one of the first `n` tables.
pub open spec fn is_step_of(ops: Seq<TableOps>, n: nat, s: RowStep) -> bool {
    match s {
        RowStep::Delete { op, row } => op < n && row < ops[op as int].deletes@.len(),
        RowStep::Insert { op, row } => op < n && row < ops[op as int].inserts@.len(),
    }
}

/// A later change takes out each row that goes and puts in each row that comes,
/// each of them once and nothing else; in a table, all that goes is out before
/// anything comes.
pub proof fn law_each_row_changes_once(ops: Seq<TableOps>, r: Seq<RowStep>, s: RowStep, i: int, j: int)
    requires
        ops.len() <= usize::MAX,
        r == steps_of(ops, ops.len()),
    ensures
        r.contains(s) <==> is_step_of(ops, ops.len(), s),
        0 <= i < j < r.len() ==> step_before(r[i], r[j]) && r[i] != r[j],
{
    lemma_steps(ops, ops.len());
    if r.contains(s) {
        let k = choose|k: int| 0 <= k < r.len() && r[k] == s;
        assert(is_step_of(ops, ops.len(), r[k]));
    }
}

/// The steps of the first tables are in order, and each is there.
proof fn lemma_steps(ops: Seq<TableOps>, n: nat)
    requires
        n <= ops.len() <= usize::MAX,
    ensures
        ({
            let r = steps_of(ops, n);
            &&& forall|i: int| 0 <= i < r.len() ==> is_step_of(ops, n, #[trigger] r[i])
            &&& forall|i: int, j: int| 0 <= i < j < r.len() ==> step_before(#[trigger] r[i], #[trigger] r[j])
            &&& forall|s: RowStep| #[trigger] is_step_of(ops, n, s) ==> r.contains(s)
        }),
    decreases n,
{
    if n > 0 {
        let p = n - 1;
        lemma_steps(ops, p as nat);
        let (before, r) = (steps_of(ops, p as nat), steps_of(ops, n));
        let (d, c) = (ops[p].deletes.len(), ops[p].inserts.len());
        let more = table_steps(p, ops[p].deletes@.len(), ops[p].inserts@.len());
        assert(d == ops[p].deletes@.len() && c == ops[p].inserts@.len());
        assert(r == before + more);
        assert forall|i: int| 0 <= i < more.len() implies is_step_of(ops, n, #[trigger] more[i]) && step_table(more[i])
            == p by {}
        assert forall|i: int| 0 <= i < r.len() implies is_step_of(ops, n, #[trigger] r[i]) by {
            if i < before.len() {
                assert(r[i] == before[i]);
                assert(is_step_of(ops, p as nat, before[i]));
            } else {
                assert(r[i] == more[i - before.len()]);
            }
        }
        assert forall|i: int, j: int| 0 <= i < j < r.len() implies step_before(#[trigger] r[i], #[trigger] r[j]) by {
            if j < before.len() {
                assert(r[i] == before[i] && r[j] == before[j]);
            } else {
                assert(r[j] == more[j - before.len()]);
                if i < before.len() {
                    assert(r[i] == before[i]);
                    assert(is_step_of(ops, p as nat, before[i]));
                } else {
                    assert(r[i] == more[i - before.len()]);
                }
            }
        }
        assert forall|s: RowStep| #[trigger] is_step_of(ops, n, s) implies r.contains(s) by {
            if step_table(s) < p {
                assert(is_step_of(ops, p as nat, s));
                let k = choose|k: int| 0 <= k < before.len() && before[k] == s;
                assert(r[k] == s);
            } else {
                let k = match s {
                    RowStep::Delete { row, .. } => row as int,
                    RowStep::Insert { row, .. } => d + row,
                };
                assert(more[k] == s);
                assert(r[before.len() + k] == s);
            }
        }
    }
}

/// A table is filled by at least one transaction, each of at most 4096 rows,
/// one after the other; the first one alone empties the table.
pub proof fn law_tables_are_filled_in_small_transactions(rows: int, i: int)
    requires
        0 <= rows <= usize::MAX,
        0 <= i < seed_chunks(rows).len(),
    ensures
        ({
            let r = seed_chunks(rows);
            &&& r[i].from <= r[i].to <= rows
            &&& r[i].to - r[i].from <= 4096
            &&& r[i].clear <==> i == 0
            &&& r[i].from == (if i == 0 {
                0
            } else {
                r[i - 1].to as int
            })
            &&& i + 1 < r.len() ==> r[i].to - r[i].from == 4096
            &&& i + 1 == r.len() ==> r[i].to == rows
        }),
{
    if rows > 0 {
        lemma_chunks(rows, 0, i);
    }
}

/// There is a transaction for a table, also for one without rows.
pub proof fn law_each_table_is_filled(rows: int)
    requires
        0 <= rows <= usize::MAX,
    ensures
        seed_chunks(rows).len() >= 1,
{
}

proof fn lemma_chunks(rows: int, from: int, i: int)
    requires
        0 <= from < rows <= usize::MAX,
        0 <= i < chunks_from(rows, from).len(),
    ensures
        ({
            let r = chunks_from(rows, from);
            &&& r[i].from <= r[i].to <= rows
            &&& r[i].to - r[i].from <= 4096
            &&& r[i].clear <==> i == 0 && from == 0
            &&& r[i].from == (if i == 0 {
                from
            } else {
                r[i - 1].to as int
            })
            &&& i + 1 < r.len() ==> r[i].to - r[i].from == 4096
            &&& i + 1 == r.len() ==> r[i].to == rows
        }),
    decreases rows - from,
{
    let r = chunks_from(rows, from);
    let to = r[0].to as int;
    let rest = chunks_from(rows, to);
    assert(r == seq![r[0]] + rest);
    if i > 0 {
        assert(r[i] == rest[i - 1]);
        lemma_chunks(rows, to, i - 1);
        if i > 1 {
            assert(r[i - 1] == rest[i - 2]);
        }
    }
}

/// The first rows of a subscription fill each of their tables by the
/// transactions of that table, and no other.
pub proof fn law_seeds_fill_their_tables(ops: Seq<TableOps>, txs: Seq<MirrorTx>, op: usize, c: SeedChunk)
    requires
        ops.len() <= usize::MAX,
        are_seeds(seed_transactions(ops, ops.len()), txs),
    ensures
        (exists|i: int| 0 <= i < txs.len() && is_seed_tx(#[trigger] txs[i], op as int, c)) <==> op < ops.len()
            && seed_chunks(ops[op as int].inserts@.len() as int).contains(c),
        forall|i: int| 0 <= i < txs.len() ==> (#[trigger] txs[i]) is Seed,
{
    let plan = seed_transactions(ops, ops.len());
    lemma_seeds(ops, ops.len(), op as int, c);
    if exists|i: int| 0 <= i < txs.len() && is_seed_tx(#[trigger] txs[i], op as int, c) {
        let i = choose|i: int| 0 <= i < txs.len() && is_seed_tx(#[trigger] txs[i], op as int, c);
        assert(plan[i] == (op as int, c));
    }
    if plan.contains((op as int, c)) {
        let i = choose|i: int| 0 <= i < plan.len() && plan[i] == (op as int, c);
        assert(is_seed_tx(txs[i], op as int, c));
    }
    assert forall|i: int| 0 <= i < txs.len() implies (#[trigger] txs[i]) is Seed by {
        assert(is_seed_tx(txs[i], plan[i].0, plan[i].1));
    }
}

proof fn lemma_seeds(ops: Seq<TableOps>, n: nat, op: int, c: SeedChunk)
    requires
        n <= ops.len(),
    ensures
        seed_transactions(ops, n).contains((op, c)) <==> 0 <= op < n && seed_chunks(
            ops[op].inserts@.len() as int,
        ).contains(c),
    decreases n,
{
    if n > 0 {
        let p = n - 1;
        lemma_seeds(ops, p as nat, op, c);
        let (before, r) = (seed_transactions(ops, p as nat), seed_transactions(ops, n));
        let chunks = seed_chunks(ops[p].inserts@.len() as int);
        let more = chunks.map_values(|x: SeedChunk| (p, x));
        assert(r =~= before + more);
        if r.contains((op, c)) {
            let k = choose|k: int| 0 <= k < r.len() && r[k] == (op, c);
            if k < before.len() {
                assert(before[k] == (op, c));
            } else {
                assert(more[k - before.len()] == (op, c));
                assert(chunks[k - before.len()] == c);
            }
        }
        if before.contains((op, c)) {
            let k = choose|k: int| 0 <= k < before.len() && before[k] == (op, c);
            assert(r[k] == (op, c));
        }
        if op == p && chunks.contains(c) {
            let k = choose|k: int| 0 <= k < chunks.len() && chunks[k] == c;
            assert(more[k] == (op, c));
            assert(r[before.len() + k] == (op, c));
        }
    }
}

} // verus!
