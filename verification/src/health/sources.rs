//! What the mirrors say of the databases that they mirror, brought together.

use vstd::prelude::*;

use crate::discovery::legacy_units::text_in;
use crate::discovery::naming::{port_for_database, port_of, source_name_for_database, source_of};
use crate::discovery::regions::mirror_list;
use crate::health::tx_rate::{RateModel, SourceTxRate};
use crate::json::{get, has_member, lacks_member, law_members_are_found_by_name, member, Json, JsonNumber};
use crate::name_table::{entry_names, NameTable};
use crate::text::{chars_of, same_text, text_of};

verus! {

/// Seconds between two questions to the mirrors.
pub const SOURCES_POLL_INTERVAL_SECS: u64 = 30;

/// Seconds that a mirror has to answer.
pub const DEFAULT_FETCH_TIMEOUT_SECS: u64 = 4;

/// Seconds between two looks at the counters.
pub const TX_RATE_SAMPLE_INTERVAL_SECS: u64 = 1;

/// Failures in a row that change nothing.
pub const MIRROR_POLL_GRACE_CYCLES: u32 = 1;

/// The connectivity of a source whose mirror does not answer.
pub const UNREACHABLE: &'static str = "unreachable";

/// The connectivity of a source that follows its database.
pub const LIVE: &'static str = "live";

/// What is known of a source.
#[derive(Debug)]
pub struct SourceSnapshot {
    pub port: u16,
    pub database: String,
    pub schema_cached: bool,
    pub connectivity: Option<String>,
    pub tables_live: Option<u32>,
    pub tables_total: Option<u32>,
    pub transactions_processed: Option<u64>,
    pub connected_since: Option<String>,
    pub disconnected_since: Option<String>,
    pub next_attempt_at: Option<String>,
    pub next_attempt_eta_secs: Option<u64>,
    pub last_success_unix: Option<u64>,
}

/// What [`SourceSnapshot`] says.
#[verifier::ext_equal]
pub struct SnapshotModel {
    pub port: u16,
    pub database: Seq<char>,
    pub schema_cached: bool,
    pub connectivity: Option<Seq<char>>,
    pub tables_live: Option<u32>,
    pub tables_total: Option<u32>,
    pub transactions: Option<u64>,
    pub connected_since: Option<Seq<char>>,
    pub disconnected_since: Option<Seq<char>>,
    pub next_attempt_at: Option<Seq<char>>,
    pub next_attempt_eta_secs: Option<u64>,
    pub last_success_unix: Option<u64>,
}

impl View for SourceSnapshot {
    type V = SnapshotModel;

    open spec fn view(&self) -> SnapshotModel {
        SnapshotModel {
            port: self.port,
            database: self.database@,
            schema_cached: self.schema_cached,
            connectivity: text_in(self.connectivity),
            tables_live: self.tables_live,
            tables_total: self.tables_total,
            transactions: self.transactions_processed,
            connected_since: text_in(self.connected_since),
            disconnected_since: text_in(self.disconnected_since),
            next_attempt_at: text_in(self.next_attempt_at),
            next_attempt_eta_secs: self.next_attempt_eta_secs,
            last_success_unix: self.last_success_unix,
        }
    }
}

/// The text of a member of an entry.
pub open spec fn text_at(entry: Json, name: Seq<char>) -> Option<Seq<char>> {
    match entry {
        Json::Object(o) => match member(o@, name) {
            Some(Json::Text(t)) => Some(t@),
            _ => None,
        },
        _ => None,
    }
}

/// The unsigned number of a member of an entry.
pub open spec fn uint_at(entry: Json, name: Seq<char>) -> Option<u64> {
    match entry {
        Json::Object(o) => match member(o@, name) {
            Some(Json::Number(n)) => n.uint,
            _ => None,
        },
        _ => None,
    }
}

/// The low 32 bits of the unsigned number of a member of an entry.
pub open spec fn count_at(entry: Json, name: Seq<char>) -> Option<u32> {
    match uint_at(entry, name) {
        Some(n) => Some((n % 0x1_0000_0000) as u32),
        None => None,
    }
}

/// The text of a member of an entry.
fn text_of_member(entry: &Json, name: &str) -> (r: Option<String>)
    ensures
        text_in(r) == text_at(*entry, name@),
{
    match entry {
        Json::Object(o) => match get(o.as_slice(), name) {
            Some(Json::Text(t)) => Some(t.clone()),
            _ => None,
        },
        _ => None,
    }
}

/// The unsigned number of a member of an entry.
fn uint_of_member(entry: &Json, name: &str) -> (r: Option<u64>)
    ensures
        r == uint_at(*entry, name@),
{
    match entry {
        Json::Object(o) => match get(o.as_slice(), name) {
            Some(Json::Number(n)) => n.uint,
            _ => None,
        },
        _ => None,
    }
}

/// The low 32 bits of the unsigned number of a member of an entry.
fn count_of_member(entry: &Json, name: &str) -> (r: Option<u32>)
    ensures
        r == count_at(*entry, name@),
{
    match uint_of_member(entry, name) {
        Some(n) => Some((n % 0x1_0000_0000) as u32),
        None => None,
    }
}

/// The database of an entry; empty where it names none.
pub open spec fn database_at(entry: Json) -> Seq<char> {
    match text_at(entry, "database"@) {
        Some(t) => t,
        None => Seq::empty(),
    }
}

/// Whether an entry follows its database: all tables are live.
pub open spec fn is_live_entry(entry: Json) -> bool {
    &&& text_at(entry, "connectivity"@) == Some(LIVE@)
    &&& count_at(entry, "tables_live"@) is Some
    &&& count_at(entry, "tables_live"@) == count_at(entry, "tables_total"@)
}

/// What an entry of a mirror says.
pub open spec fn row_of(entry: Json, now: u64) -> SnapshotModel {
    let live = count_at(entry, "tables_live"@);
    SnapshotModel {
        port: port_of(database_at(entry)) as u16,
        database: database_at(entry),
        schema_cached: is_live_entry(entry) || (live is Some && live->Some_0 > 0),
        connectivity: text_at(entry, "connectivity"@),
        tables_live: live,
        tables_total: count_at(entry, "tables_total"@),
        transactions: uint_at(entry, "transactions_processed"@),
        connected_since: text_at(entry, "connected_since"@),
        disconnected_since: text_at(entry, "disconnected_since"@),
        next_attempt_at: text_at(entry, "next_attempt_at"@),
        next_attempt_eta_secs: uint_at(entry, "next_attempt_eta_secs"@),
        last_success_unix: Some(now),
    }
}

/// What the first `n` entries of a mirror say, by source. Entries without a
/// database do not count; the last one of a source does.
pub open spec fn rows_in(entries: Seq<Json>, now: u64, n: nat) -> Map<Seq<char>, SnapshotModel>
    decreases n,
{
    if n == 0 {
        Map::empty()
    } else {
        let before = rows_in(entries, now, (n - 1) as nat);
        let e = entries[n - 1];
        if database_at(e).len() == 0 {
            before
        } else {
            before.insert(source_of(database_at(e)), row_of(e, now))
        }
    }
}

/// Whether the ports of all databases of a mirror are ports.
pub open spec fn have_ports(entries: Seq<Json>) -> bool {
    forall|i: int| 0 <= i < entries.len() ==> port_of(database_at(#[trigger] entries[i])) <= u16::MAX
}

/// What a table of sources says.
pub open spec fn models(t: NameTable<SourceSnapshot>) -> Map<Seq<char>, SnapshotModel> {
    Map::new(|x: Seq<char>| t@.dom().contains(x), |x: Seq<char>| t@[x]@)
}

/// Whether a member of an entry is a text.
pub open spec fn has_text_member(entry: Json, name: Seq<char>, text: Seq<char>) -> bool {
    exists|t: String| t@ == text && #[trigger] has_member(entry, name, Json::Text(t))
}

/// Whether a member of an entry is an unsigned number.
pub open spec fn has_count_member(entry: Json, name: Seq<char>, n: u64) -> bool {
    exists|v: JsonNumber| v.uint == Some(n) && #[trigger] has_member(entry, name, Json::Number(v))
}

/// What members of an entry are.
proof fn lemma_members(entry: Json, name: Seq<char>)
    ensures
        forall|t: Seq<char>| #[trigger] has_text_member(entry, name, t) ==> text_at(entry, name) == Some(t),
        forall|n: u64| #[trigger] has_count_member(entry, name, n) ==> uint_at(entry, name) == Some(n),
        lacks_member(entry, name) ==> text_at(entry, name) is None && uint_at(entry, name) is None,
{
    law_members_are_found_by_name(entry, name, Json::Null);
    assert forall|t: Seq<char>| #[trigger] has_text_member(entry, name, t) implies text_at(entry, name) == Some(t) by {
        let s = choose|s: String| s@ == t && #[trigger] has_member(entry, name, Json::Text(s));
        law_members_are_found_by_name(entry, name, Json::Text(s));
    }
    assert forall|n: u64| #[trigger] has_count_member(entry, name, n) implies uint_at(entry, name) == Some(n) by {
        let v = choose|v: JsonNumber| v.uint == Some(n) && #[trigger] has_member(entry, name, Json::Number(v));
        law_members_are_found_by_name(entry, name, Json::Number(v));
    }
}

/// Whether a row says what an entry of a mirror says: each field is the member
/// of its name.
pub open spec fn tells(r: SourceSnapshot, entry: Json) -> bool {
    &&& forall|t: Seq<char>| #[trigger] has_text_member(entry, "database"@, t) ==> r.database@ == t
    &&& forall|t: Seq<char>| #[trigger]
        has_text_member(entry, "connectivity"@, t) ==> (r.connectivity matches Some(s) && s@ == t)
    &&& forall|n: u64| #[trigger]
        has_count_member(entry, "tables_live"@, n) && n <= u32::MAX ==> r.tables_live == Some(n as u32)
    &&& forall|n: u64| #[trigger]
        has_count_member(entry, "tables_total"@, n) && n <= u32::MAX ==> r.tables_total == Some(n as u32)
    &&& forall|n: u64| #[trigger]
        has_count_member(entry, "transactions_processed"@, n) ==> r.transactions_processed == Some(n)
    &&& forall|t: Seq<char>| #[trigger]
        has_text_member(entry, "connected_since"@, t) ==> (r.connected_since matches Some(s) && s@ == t)
    &&& forall|t: Seq<char>| #[trigger]
        has_text_member(entry, "disconnected_since"@, t) ==> (r.disconnected_since matches Some(s) && s@ == t)
    &&& forall|t: Seq<char>| #[trigger]
        has_text_member(entry, "next_attempt_at"@, t) ==> (r.next_attempt_at matches Some(s) && s@ == t)
    &&& forall|n: u64| #[trigger]
        has_count_member(entry, "next_attempt_eta_secs"@, n) ==> r.next_attempt_eta_secs == Some(n)
    &&& lacks_member(entry, "connectivity"@) ==> r.connectivity is None
    &&& lacks_member(entry, "tables_live"@) ==> r.tables_live is None
    &&& lacks_member(entry, "tables_total"@) ==> r.tables_total is None
    &&& lacks_member(entry, "transactions_processed"@) ==> r.transactions_processed is None
    &&& lacks_member(entry, "connected_since"@) ==> r.connected_since is None
    &&& lacks_member(entry, "disconnected_since"@) ==> r.disconnected_since is None
    &&& lacks_member(entry, "next_attempt_at"@) ==> r.next_attempt_at is None
    &&& lacks_member(entry, "next_attempt_eta_secs"@) ==> r.next_attempt_eta_secs is None
}

/// A row has in each field what the member of that name says, and nothing where
/// the entry has no such member. It was seen when the mirror answered. So a
/// mirror with no more live tables than tables is never shown with more. The
/// schema is known where tables are live, and where none is, only if the mirror
/// follows a database without tables.
pub proof fn law_rows_say_what_their_entries_say(r: SourceSnapshot, entry: Json, now: u64)
    requires
        r@ == row_of(entry, now),
    ensures
        tells(r, entry),
        r.last_success_unix == Some(now),
        port_of(r.database@) <= u16::MAX ==> r.port == port_of(r.database@),
        forall|a: u64, b: u64|
            #![trigger has_count_member(entry, "tables_live"@, a), has_count_member(entry, "tables_total"@, b)]
            a <= b <= u32::MAX && has_count_member(entry, "tables_live"@, a) && has_count_member(
                entry,
                "tables_total"@,
                b,
            ) ==> (r.tables_live matches Some(x) && r.tables_total matches Some(y) && x <= y),
        r.tables_live matches Some(n) && n > 0 ==> r.schema_cached,
        r.tables_live is None ==> !r.schema_cached,
        r.tables_live == Some(0u32) ==> (r.schema_cached <==> r.tables_total == Some(0u32) && (r.connectivity matches Some(
            c,
        ) && c@ == "live"@)),
{
    lemma_members(entry, "database"@);
    lemma_members(entry, "connectivity"@);
    lemma_members(entry, "tables_live"@);
    lemma_members(entry, "tables_total"@);
    lemma_members(entry, "transactions_processed"@);
    lemma_members(entry, "connected_since"@);
    lemma_members(entry, "disconnected_since"@);
    lemma_members(entry, "next_attempt_at"@);
    lemma_members(entry, "next_attempt_eta_secs"@);
}

/// Reads what an entry of a mirror says.
fn read_row(entry: &Json, database: String, now: u64) -> (r: SourceSnapshot)
    requires
        database@ == database_at(*entry),
        port_of(database@) <= u16::MAX,
    ensures
        r@ == row_of(*entry, now),
        tells(r, *entry),
{
    let connectivity = text_of_member(entry, "connectivity");
    let tables_live = count_of_member(entry, "tables_live");
    let tables_total = count_of_member(entry, "tables_total");
    let follows: bool = match &connectivity {
        Some(c) => same_text(c.as_str(), LIVE),
        None => false,
    };
    let complete: bool = match (tables_live, tables_total) {
        (Some(a), Some(b)) => a == b,
        _ => false,
    };
    let some_live: bool = match tables_live {
        Some(n) => n > 0,
        None => false,
    };
    let port: u16 = match port_for_database(database.as_str()) {
        Some(p) => p,
        None => 0,
    };
    let row = SourceSnapshot {
        port,
        database,
        schema_cached: (follows && complete) || some_live,
        connectivity,
        tables_live,
        tables_total,
        transactions_processed: uint_of_member(entry, "transactions_processed"),
        connected_since: text_of_member(entry, "connected_since"),
        disconnected_since: text_of_member(entry, "disconnected_since"),
        next_attempt_at: text_of_member(entry, "next_attempt_at"),
        next_attempt_eta_secs: uint_of_member(entry, "next_attempt_eta_secs"),
        last_success_unix: Some(now),
    };
    proof {
        law_rows_say_what_their_entries_say(row, *entry, now);
    }
    row
}

/// Reads what the entries of a mirror say.
fn read_rows(entries: &[Json], now: u64) -> (r: NameTable<SourceSnapshot>)
    requires
        have_ports(entries@),
    ensures
        r.wf(),
        models(r) == rows_in(entries@, now, entries@.len()),
{
    let mut rows: NameTable<SourceSnapshot> = NameTable::new();
    let mut i: usize = 0;
    assert(models(rows) =~= Map::<Seq<char>, SnapshotModel>::empty());
    while i < entries.len()
        invariant
            have_ports(entries@),
            rows.wf(),
            i <= entries@.len(),
            models(rows) == rows_in(entries@, now, i as nat),
        decreases entries.len() - i,
    {
        let entry = &entries[i];
        let ghost before = rows;
        let database: String = match text_of_member(entry, "database") {
            Some(d) => d,
            None => String::new(),
        };
        assert(database@ =~= database_at(*entry));
        let len: usize = chars_of(database.as_str()).len();
        if len > 0 {
            let name = source_name_for_database(database.as_str());
            let ghost key = name@;
            let row = read_row(entry, database, now);
            let _ = rows.insert(name, row);
            assert(models(rows) =~= models(before).insert(key, row@));
        }
        i += 1;
    }
    rows
}

/// The text of an optional string.
fn copy_text(s: &Option<String>) -> (r: Option<String>)
    ensures
        text_in(r) == text_in(*s),
{
    match s {
        Some(t) => Some(t.clone()),
        None => None,
    }
}

/// A row with the connectivity of a source whose mirror does not answer.
pub open spec fn unreachable_row(r: SnapshotModel) -> SnapshotModel {
    SnapshotModel { connectivity: Some(UNREACHABLE@), ..r }
}

/// Whether the mirror of a source answers.
pub open spec fn reachable(r: SnapshotModel) -> bool {
    r.connectivity != Some(UNREACHABLE@)
}

/// A copy of a row, marked or not.
fn copy_row(s: &SourceSnapshot, mark: bool) -> (r: SourceSnapshot)
    ensures
        r@ == if mark {
            unreachable_row(s@)
        } else {
            s@
        },
{
    SourceSnapshot {
        port: s.port,
        database: s.database.clone(),
        schema_cached: s.schema_cached,
        connectivity: if mark {
            Some(text_of(chars_of(UNREACHABLE).as_slice()))
        } else {
            copy_text(&s.connectivity)
        },
        tables_live: s.tables_live,
        tables_total: s.tables_total,
        transactions_processed: s.transactions_processed,
        connected_since: copy_text(&s.connected_since),
        disconnected_since: copy_text(&s.disconnected_since),
        next_attempt_at: copy_text(&s.next_attempt_at),
        next_attempt_eta_secs: s.next_attempt_eta_secs,
        last_success_unix: s.last_success_unix,
    }
}

/// Rows of sources whose mirrors do not answer.
pub open spec fn all_unreachable(m: Map<Seq<char>, SnapshotModel>) -> Map<Seq<char>, SnapshotModel> {
    Map::new(|x: Seq<char>| m.dom().contains(x), |x: Seq<char>| unreachable_row(m[x]))
}

/// A copy of rows, marked or not.
fn copy_rows(t: &NameTable<SourceSnapshot>, mark: bool) -> (r: NameTable<SourceSnapshot>)
    requires
        t.wf(),
    ensures
        r.wf(),
        models(r) == if mark {
            all_unreachable(models(*t))
        } else {
            models(*t)
        },
{
    let ghost want = if mark {
        all_unreachable(models(*t))
    } else {
        models(*t)
    };
    let mut out: NameTable<SourceSnapshot> = NameTable::new();
    let n: usize = t.len();
    let mut i: usize = 0;
    proof {
        t.lemma_names();
    }
    while i < n
        invariant
            t.wf(),
            out.wf(),
            n == t.names().len(),
            i <= n,
            want == if mark {
                all_unreachable(models(*t))
            } else {
                models(*t)
            },
            t.names().to_set() == t@.dom(),
            forall|x: Seq<char>| #[trigger] out@.dom().contains(x) <==> t.names().take(i as int).contains(x),
            forall|x: Seq<char>| #[trigger] out@.dom().contains(x) ==> t@.dom().contains(x) && out@[x]@ == want[x],
        decreases n - i,
    {
        let name = t.name_of(i).clone();
        let ghost key = name@;
        let row = copy_row(t.value_of(i), mark);
        let ghost before = out@;
        let _ = out.insert(name, row);
        proof {
            assert(t.names().take(i + 1) =~= t.names().take(i as int).push(key));
            assert forall|x: Seq<char>| #[trigger] out@.dom().contains(x) <==> t.names().take(i + 1).contains(x) by {
                if t.names().take(i as int).contains(x) {
                    let j = choose|j: int| 0 <= j < i && t.names().take(i as int)[j] == x;
                    assert(t.names().take(i + 1)[j] == x);
                }
                assert(t.names().take(i + 1)[i as int] == key);
            }
        }
        i += 1;
    }
    proof {
        assert(t.names().take(i as int) =~= t.names());
        assert forall|x: Seq<char>| out@.dom().contains(x) <==> t@.dom().contains(x) by {
            assert(t.names().to_set().contains(x) <==> t.names().contains(x));
        }
        assert(models(out) =~= want);
    }
    out
}

/// What a mirror answered; `None` where it did not, or not with JSON.
#[derive(Debug)]
pub struct Poll {
    pub url: String,
    pub body: Option<Json>,
    pub now_unix: u64,
}

/// The list of mirrors in what a mirror answered.
pub open spec fn entries_of(p: Poll) -> Option<Seq<Json>> {
    match p.body {
        Some(b) => mirror_list(b),
        None => None,
    }
}

/// Failures in a row of a mirror, counted after it failed or answered.
pub open spec fn count_after(fails: Map<Seq<char>, u32>, url: Seq<char>, failed: bool) -> u32 {
    if !failed {
        0
    } else if fails.dom().contains(url) {
        if fails[url] < u32::MAX {
            (fails[url] + 1) as u32
        } else {
            u32::MAX
        }
    } else {
        1
    }
}

/// Failures in a row of a mirror, counted after an answer.
pub open spec fn failures(fails: Map<Seq<char>, u32>, p: Poll) -> u32 {
    count_after(fails, p.url@, entries_of(p) is None)
}

/// The rows that an answer leads to: those of the answer, else those that were
/// there, marked when the mirror failed for too long.
pub open spec fn rows_for(prior: Map<Seq<char>, SnapshotModel>, fails: Map<Seq<char>, u32>, p: Poll) -> Map<
    Seq<char>,
    SnapshotModel,
> {
    match entries_of(p) {
        Some(entries) => rows_in(entries, p.now_unix, entries.len()),
        None => if failures(fails, p) <= MIRROR_POLL_GRACE_CYCLES {
            prior
        } else {
            all_unreachable(prior)
        },
    }
}

/// Rows with those of some sources that are reachable in their place.
pub open spec fn taken(
    base: Map<Seq<char>, SnapshotModel>,
    rows: Map<Seq<char>, SnapshotModel>,
    names: Set<Seq<char>>,
) -> Map<Seq<char>, SnapshotModel> {
    Map::new(
        |x: Seq<char>| base.dom().contains(x) || (names.contains(x) && rows.dom().contains(x) && reachable(rows[x])),
        |x: Seq<char>|
            if names.contains(x) && rows.dom().contains(x) && reachable(rows[x]) {
                rows[x]
            } else {
                base[x]
            },
    )
}

/// Rows with those of some sources that are not reachable added, where there
/// was none.
pub open spec fn held_back(
    base: Map<Seq<char>, SnapshotModel>,
    rows: Map<Seq<char>, SnapshotModel>,
    names: Set<Seq<char>>,
) -> Map<Seq<char>, SnapshotModel> {
    Map::new(
        |x: Seq<char>| base.dom().contains(x) || (names.contains(x) && rows.dom().contains(x) && !reachable(rows[x])),
        |x: Seq<char>|
            if base.dom().contains(x) {
                base[x]
            } else {
                rows[x]
            },
    )
}

/// Rows that were gathered of some mirrors, and the failures of the mirrors.
#[verifier::ext_equal]
pub struct Gathered {
    pub fresh: Map<Seq<char>, SnapshotModel>,
    pub degraded: Map<Seq<char>, SnapshotModel>,
    pub fails: Map<Seq<char>, u32>,
}

impl Gathered {
    /// What is gathered after one more answer.
    pub open spec fn with(self, prior: Map<Seq<char>, SnapshotModel>, p: Poll) -> Gathered {
        let rows = rows_for(prior, self.fails, p);
        Gathered {
            fresh: taken(self.fresh, rows, rows.dom()),
            degraded: held_back(self.degraded, rows, rows.dom()),
            fails: self.fails.insert(p.url@, failures(self.fails, p)),
        }
    }

    /// What is gathered after the first `n` answers.
    pub open spec fn with_all(self, prior: Map<Seq<char>, SnapshotModel>, polls: Seq<Poll>, n: nat) -> Gathered
        decreases n,
    {
        if n == 0 {
            self
        } else {
            self.with_all(prior, polls, (n - 1) as nat).with(prior, polls[n - 1])
        }
    }

    /// The rows in all: a source that some mirror reaches is shown as reached.
    pub open spec fn rows(self) -> Map<Seq<char>, SnapshotModel> {
        self.degraded.union_prefer_right(self.fresh)
    }
}

/// What is known of the mirrors.
#[verifier::ext_equal]
pub struct HealthModel {
    pub sources: Map<Seq<char>, SnapshotModel>,
    pub rates: Map<Seq<char>, RateModel>,
    pub fails: Map<Seq<char>, u32>,
}

impl HealthModel {
    /// What is known after the mirrors were asked.
    pub open spec fn refreshed(self, polls: Seq<Poll>) -> HealthModel {
        let start = Gathered { fresh: Map::empty(), degraded: Map::empty(), fails: self.fails };
        let end = start.with_all(self.sources, polls, polls.len());
        HealthModel { sources: end.rows(), fails: end.fails, ..self }
    }

    /// What is known after a look at the counters.
    pub open spec fn sampled(self, seen: Map<Seq<char>, u64>) -> HealthModel {
        HealthModel {
            sources: Map::new(
                |x: Seq<char>| self.sources.dom().contains(x),
                |x: Seq<char>|
                    if seen.dom().contains(x) {
                        SnapshotModel { transactions: Some(seen[x]), ..self.sources[x] }
                    } else {
                        self.sources[x]
                    },
            ),
            rates: Map::new(
                |x: Seq<char>| seen.dom().contains(x),
                |x: Seq<char>|
                    (if self.rates.dom().contains(x) {
                        self.rates[x]
                    } else {
                        RateModel::unseen()
                    }).recorded(seen[x]),
            ),
            ..self
        }
    }
}

/// What is known of the mirrors.
pub struct HealthState {
    sources: NameTable<SourceSnapshot>,
    rates: NameTable<SourceTxRate>,
    fails: NameTable<u32>,
}

/// What a table of rates says.
pub open spec fn rate_models(t: NameTable<SourceTxRate>) -> Map<Seq<char>, RateModel> {
    Map::new(|x: Seq<char>| t@.dom().contains(x), |x: Seq<char>| t@[x]@)
}

/// Whether the rates of a table are well formed.
pub open spec fn rates_wf(t: NameTable<SourceTxRate>) -> bool {
    &&& t.wf()
    &&& forall|x: Seq<char>| #[trigger] t@.dom().contains(x) ==> t@[x].wf()
}

impl View for HealthState {
    type V = HealthModel;

    closed spec fn view(&self) -> HealthModel {
        HealthModel { sources: models(self.sources), rates: rate_models(self.rates), fails: self.fails@ }
    }
}

/// The counters that the first `n` entries of a mirror show, by source.
pub open spec fn counters_in(seen: Map<Seq<char>, u64>, entries: Seq<Json>, n: nat) -> Map<Seq<char>, u64>
    decreases n,
{
    if n == 0 {
        seen
    } else {
        let before = counters_in(seen, entries, (n - 1) as nat);
        let e = entries[n - 1];
        match (text_at(e, "database"@), uint_at(e, "transactions_processed"@)) {
            (Some(d), Some(tx)) => before.insert(source_of(d), tx),
            _ => before,
        }
    }
}

/// The counters that the first `n` mirrors show, by source.
pub open spec fn counters_of(polls: Seq<Poll>, n: nat) -> Map<Seq<char>, u64>
    decreases n,
{
    if n == 0 {
        Map::empty()
    } else {
        let before = counters_of(polls, (n - 1) as nat);
        match entries_of(polls[n - 1]) {
            Some(entries) => counters_in(before, entries, entries.len()),
            None => before,
        }
    }
}

/// The list of mirrors in what a mirror answered.
fn list_of(p: &Poll) -> (r: Option<&Vec<Json>>)
    ensures
        match r {
            Some(v) => entries_of(*p) == Some(v@),
            None => entries_of(*p) is None,
        },
{
    match &p.body {
        Some(Json::Object(o)) => match get(o.as_slice(), "mirrors") {
            Some(Json::Array(a)) => Some(a),
            _ => None,
        },
        _ => None,
    }
}

/// Whether a row is that of a source whose mirror answers.
fn is_reachable(s: &SourceSnapshot) -> (r: bool)
    ensures
        r <==> reachable(s@),
{
    match &s.connectivity {
        Some(c) => !same_text(c.as_str(), UNREACHABLE),
        None => true,
    }
}

/// Sorts rows into those that count at once and those that count where there
/// is no other.
fn take_rows(fresh: &mut NameTable<SourceSnapshot>, degraded: &mut NameTable<SourceSnapshot>, rows: NameTable<SourceSnapshot>)
    requires
        old(fresh).wf(),
        old(degraded).wf(),
        rows.wf(),
    ensures
        final(fresh).wf(),
        final(degraded).wf(),
        models(*final(fresh)) == taken(models(*old(fresh)), models(rows), models(rows).dom()),
        models(*final(degraded)) == held_back(models(*old(degraded)), models(rows), models(rows).dom()),
{
    let ghost base = models(*fresh);
    let ghost spare = models(*degraded);
    let ghost all = models(rows);
    let ghost names = rows.names();
    proof {
        rows.lemma_names();
        assert(models(*fresh) =~= taken(base, all, Set::empty()));
        assert(models(*degraded) =~= held_back(spare, all, Set::empty()));
    }
    let entries = rows.into_entries();
    let ghost list = entries@;
    proof {
        assert(names.take(0).to_set() =~= Set::<Seq<char>>::empty());
    }
    for e in it: entries
        invariant
            it.seq() == list,
            fresh.wf(),
            degraded.wf(),
            names == entry_names(list),
            names.no_duplicates(),
            forall|i: int| 0 <= i < list.len() ==> all.dom().contains((#[trigger] list[i]).0@) && all[list[i].0@] == list[i].1@,
            models(*fresh) == taken(base, all, names.take(it.index() as int).to_set()),
            models(*degraded) == held_back(spare, all, names.take(it.index() as int).to_set()),
    {
        let ghost k = it.index() as int;
        let ghost done = names.take(k).to_set();
        let (name, row) = e;
        let ghost key = name@;
        let ghost model = row@;
        proof {
            assert(names[k] == key);
            assert(names.take(k + 1) =~= names.take(k).push(key));
            assert(names.take(k + 1).to_set() =~= done.insert(key)) by {
                assert forall|x: Seq<char>| names.take(k + 1).to_set().contains(x) <==> done.insert(key).contains(x) by {
                    if names.take(k).contains(x) {
                        let j = choose|j: int| 0 <= j < k && names.take(k)[j] == x;
                        assert(names.take(k + 1)[j] == x);
                    }
                    assert(names.take(k + 1)[k] == key);
                }
            }
            assert(!done.contains(key)) by {
                if names.take(k).contains(key) {
                    let j = choose|j: int| 0 <= j < k && names.take(k)[j] == key;
                    assert(names[j] == names[k]);
                }
            }
        }
        let ghost was_fresh = models(*fresh);
        let ghost was_spare = models(*degraded);
        proof {
            assert(list[k].0@ == key && all.dom().contains(key) && all[key] == model);
            assert(was_spare.dom().contains(key) <==> spare.dom().contains(key));
        }
        if is_reachable(&row) {
            let _ = fresh.insert(name, row);
            assert(models(*fresh) =~= was_fresh.insert(key, model));
        } else if degraded.get(name.as_str()).is_none() {
            let _ = degraded.insert(name, row);
            assert(models(*degraded) =~= was_spare.insert(key, model));
        }
        proof {
            assert(models(*fresh) =~= taken(base, all, done.insert(key)));
            assert(models(*degraded) =~= held_back(spare, all, done.insert(key)));
        }
    }
    proof {
        assert(names.take(names.len() as int) =~= names);
        assert(names.to_set() =~= all.dom());
    }
}

impl HealthState {
    /// Every table is well formed.
    pub closed spec fn wf(&self) -> bool {
        &&& self.sources.wf()
        &&& rates_wf(self.rates)
        &&& self.fails.wf()
    }

    /// Nothing is known.
    pub fn new() -> (r: Self)
        ensures
            r.wf(),
            r@ == (HealthModel { sources: Map::empty(), rates: Map::empty(), fails: Map::empty() }),
    {
        let r = HealthState { sources: NameTable::new(), rates: NameTable::new(), fails: NameTable::new() };
        assert(r@ =~= (HealthModel { sources: Map::empty(), rates: Map::empty(), fails: Map::empty() }));
        r
    }

    /// What is known of the sources, by name.
    pub fn sources(&self) -> (r: &NameTable<SourceSnapshot>)
        requires
            self.wf(),
        ensures
            r.wf(),
            models(*r) == self@.sources,
    {
        &self.sources
    }

    /// Transactions of a source in all, and over how many seconds; `None`
    /// before the second look at its counter.
    pub fn growth(&self, name: &str) -> (r: Option<(u128, usize)>)
        requires
            self.wf(),
        ensures
            match r {
                Some((sum, n)) => {
                    &&& self@.rates.dom().contains(name@)
                    &&& self@.rates[name@].growth.len() == n
                    &&& n > 0
                    &&& sum == crate::health::tx_rate::total(self@.rates[name@].growth)
                },
                None => !self@.rates.dom().contains(name@) || self@.rates[name@].growth.len() == 0,
            },
    {
        match self.rates.get(name) {
            Some(ring) => ring.growth(),
            None => None,
        }
    }

    /// Counts the failures in a row of a mirror.
    fn count(&mut self, url: &str, failed: bool) -> (r: u32)
        requires
            old(self).wf(),
        ensures
            final(self).wf(),
            r == count_after(old(self)@.fails, url@, failed),
            final(self)@ == (HealthModel { fails: old(self)@.fails.insert(url@, r), ..old(self)@ }),
    {
        let before: u32 = match self.fails.get(url) {
            Some(n) => *n,
            None => 0,
        };
        let n: u32 = if !failed {
            0
        } else if before < u32::MAX {
            before + 1
        } else {
            u32::MAX
        };
        let _ = self.fails.insert(text_of(chars_of(url).as_slice()), n);
        assert(self@ =~= (HealthModel { fails: old(self)@.fails.insert(url@, n), ..old(self)@ }));
        n
    }

    /// The rows that an answer leads to.
    fn rows_after(&mut self, p: &Poll) -> (r: NameTable<SourceSnapshot>)
        requires
            old(self).wf(),
            entries_of(*p) matches Some(entries) ==> have_ports(entries),
        ensures
            final(self).wf(),
            r.wf(),
            models(r) == rows_for(old(self)@.sources, old(self)@.fails, *p),
            final(self)@ == (HealthModel {
                fails: old(self)@.fails.insert(p.url@, failures(old(self)@.fails, *p)),
                ..old(self)@
            }),
    {
        match list_of(p) {
            Some(entries) => {
                let _ = self.count(p.url.as_str(), false);
                read_rows(entries.as_slice(), p.now_unix)
            },
            None => self.degraded_mirror_rows(p.url.as_str()),
        }
    }

    /// The rows after a mirror failed once more: those that are known. Past the
    /// first failure in a row their sources are shown as unreachable, and
    /// nothing else of them changes.
    pub fn degraded_mirror_rows(&mut self, url: &str) -> (r: NameTable<SourceSnapshot>)
        requires
            old(self).wf(),
        ensures
            final(self).wf(),
            r.wf(),
            ({
                let fails = count_after(old(self)@.fails, url@, true);
                let prior = old(self)@.sources;
                &&& models(r) == if fails <= MIRROR_POLL_GRACE_CYCLES {
                    prior
                } else {
                    all_unreachable(prior)
                }
                &&& models(r).dom() == prior.dom()
                &&& final(self)@ == (HealthModel { fails: old(self)@.fails.insert(url@, fails), ..old(self)@ })
            }),
    {
        let fails: u32 = self.count(url, true);
        let none: bool = self.sources.len() == 0;
        let r = copy_rows(&self.sources, !none && fails > MIRROR_POLL_GRACE_CYCLES);
        proof {
            self.sources.lemma_names();
            if none {
                assert(models(r) =~= all_unreachable(models(self.sources)));
            }
            assert(models(r).dom() =~= models(self.sources).dom());
        }
        r
    }

    /// Takes what the mirrors answered, in the order in which they were asked.
    pub fn refresh_sources(&mut self, polls: &[Poll])
        requires
            old(self).wf(),
            forall|i: int|
                0 <= i < polls@.len() ==> (entries_of(#[trigger] polls@[i]) matches Some(entries) ==> have_ports(entries)),
        ensures
            final(self).wf(),
            final(self)@ == old(self)@.refreshed(polls@),
    {
        let ghost was = self@;
        let ghost start = Gathered { fresh: Map::empty(), degraded: Map::empty(), fails: was.fails };
        let mut fresh: NameTable<SourceSnapshot> = NameTable::new();
        let mut degraded: NameTable<SourceSnapshot> = NameTable::new();
        let mut i: usize = 0;
        proof {
            assert(models(fresh) =~= start.fresh);
            assert(models(degraded) =~= start.degraded);
        }
        while i < polls.len()
            invariant
                self.wf(),
                fresh.wf(),
                degraded.wf(),
                forall|i: int|
                    0 <= i < polls@.len() ==> (entries_of(#[trigger] polls@[i]) matches Some(entries) ==> have_ports(
                        entries,
                    )),
                i <= polls@.len(),
                self@.sources == was.sources,
                self@.rates == was.rates,
                (Gathered { fresh: models(fresh), degraded: models(degraded), fails: self@.fails }) == start.with_all(
                    was.sources,
                    polls@,
                    i as nat,
                ),
            decreases polls.len() - i,
        {
            let rows = self.rows_after(&polls[i]);
            take_rows(&mut fresh, &mut degraded, rows);
            i += 1;
        }
        let ghost end = start.with_all(was.sources, polls@, polls@.len());
        proof {
            fresh.lemma_names();
            assert(models(fresh).dom() =~= fresh@.dom());
        }
        let entries = fresh.into_entries();
        self.put_all(degraded, entries, Ghost(end));
        assert(self@ =~= was.refreshed(polls@));
    }

    /// Puts rows in place: spare ones, and over them those that count at once.
    fn put_all(&mut self, spare: NameTable<SourceSnapshot>, entries: Vec<(String, SourceSnapshot)>, Ghost(end): Ghost<Gathered>)
        requires
            old(self).wf(),
            spare.wf(),
            models(spare) == end.degraded,
            entry_names(entries@).to_set() == end.fresh.dom(),
            forall|i: int|
                0 <= i < entries@.len() ==> end.fresh.dom().contains((#[trigger] entries@[i]).0@) && end.fresh[entries@[i].0@]
                    == entries@[i].1@,
        ensures
            final(self).wf(),
            final(self)@ == (HealthModel { sources: end.rows(), ..old(self)@ }),
    {
        let ghost names = entry_names(entries@);
        let ghost list = entries@;
        let mut all = spare;
        proof {
            assert(models(all) =~= end.degraded.union_prefer_right(end.fresh.restrict(names.take(0).to_set())));
        }
        for e in it: entries
            invariant
                it.seq() == list,
                all.wf(),
                names == entry_names(list),
                forall|i: int|
                    0 <= i < list.len() ==> end.fresh.dom().contains((#[trigger] list[i]).0@) && end.fresh[list[i].0@]
                        == list[i].1@,
                models(all) == end.degraded.union_prefer_right(
                    end.fresh.restrict(names.take(it.index() as int).to_set()),
                ),
        {
            let ghost k = it.index() as int;
            let (name, row) = e;
            let ghost key = name@;
            let ghost model = row@;
            let ghost before = models(all);
            let _ = all.insert(name, row);
            proof {
                assert(models(all) =~= before.insert(key, model));
                assert(names[k] == key);
                assert(names.take(k + 1).to_set() =~= names.take(k).to_set().insert(key)) by {
                    assert(names.take(k + 1) =~= names.take(k).push(key));
                    assert forall|x: Seq<char>|
                        names.take(k + 1).to_set().contains(x) <==> names.take(k).to_set().insert(key).contains(x) by {
                        if names.take(k).contains(x) {
                            let j = choose|j: int| 0 <= j < k && names.take(k)[j] == x;
                            assert(names.take(k + 1)[j] == x);
                        }
                        assert(names.take(k + 1)[k] == key);
                    }
                }
                assert(models(all) =~= end.degraded.union_prefer_right(
                    end.fresh.restrict(names.take(k + 1).to_set()),
                ));
            }
        }
        proof {
            assert(names.take(names.len() as int) =~= names);
            assert(end.fresh.restrict(names.to_set()) =~= end.fresh);
        }
        self.sources = all;
        assert(self@ =~= (HealthModel { sources: end.rows(), ..old(self)@ }));
    }

    /// Takes a look at the counters of the sources. Without mirrors there is
    /// none to look at.
    pub fn sample_tx_rates(&mut self, polls: &[Poll])
        requires
            old(self).wf(),
        ensures
            final(self).wf(),
            final(self)@ == if polls@.len() == 0 {
                old(self)@
            } else {
                old(self)@.sampled(counters_of(polls@, polls@.len()))
            },
    {
        if polls.len() == 0 {
            return ;
        }
        let seen = read_counters(polls);
        let ghost counters = seen@;
        let ghost was = self@;
        let n: usize = seen.len();
        let mut rates: NameTable<SourceTxRate> = NameTable::new();
        let ghost names = seen.names();
        proof {
            seen.lemma_names();
            assert(names.take(0).to_set() =~= Set::<Seq<char>>::empty());
            assert(self@ =~= partly_sampled(was, counters, Set::empty(), self@.rates));
            assert(rate_models(rates) =~= was.sampled(counters).rates.restrict(Set::empty()));
        }
        let mut i: usize = 0;
        while i < n
            invariant
                self.wf(),
                seen.wf(),
                rates_wf(rates),
                seen@ == counters,
                names == seen.names(),
                names.no_duplicates(),
                n == names.len(),
                i <= n,
                self@ == partly_sampled(was, counters, names.take(i as int).to_set(), self@.rates),
                self@.rates == was.rates.remove_keys(names.take(i as int).to_set()),
                rate_models(rates) == was.sampled(counters).rates.restrict(names.take(i as int).to_set()),
            decreases n - i,
        {
            let ghost done = names.take(i as int).to_set();
            let name = seen.name_of(i).clone();
            let tx: u64 = *seen.value_of(i);
            let ghost key = name@;
            proof {
                assert(names.take(i + 1) =~= names.take(i as int).push(key));
                assert(names.take(i + 1).to_set() =~= done.insert(key)) by {
                    assert forall|x: Seq<char>| names.take(i + 1).to_set().contains(x) <==> done.insert(key).contains(x) by {
                        if names.take(i as int).contains(x) {
                            let j = choose|j: int| 0 <= j < i && names.take(i as int)[j] == x;
                            assert(names.take(i + 1)[j] == x);
                        }
                        assert(names.take(i + 1)[i as int] == key);
                    }
                }
                assert(!done.contains(key)) by {
                    if names.take(i as int).contains(key) {
                        let j = choose|j: int| 0 <= j < i && names.take(i as int)[j] == key;
                        assert(names[j] == names[i as int]);
                    }
                }
            }
            let ghost before = *self;
            self.set_counter(name.as_str(), tx);
            let mut ring: SourceTxRate = match self.rates.remove(name.as_str()) {
                Some(r) => r,
                None => SourceTxRate::new(),
            };
            proof {
                assert(was.rates.dom().contains(key) <==> rate_models(before.rates).dom().contains(key));
                assert(counters[key] == tx);
                if was.rates.dom().contains(key) {
                    assert(was.rates.remove_keys(done)[key] == was.rates[key]);
                    assert(rate_models(before.rates) == was.rates.remove_keys(done));
                    assert(rate_models(before.rates)[key] == before.rates@[key]@);
                }
                assert(ring@ == if was.rates.dom().contains(key) {
                    was.rates[key]
                } else {
                    RateModel::unseen()
                });
            }
            ring.record(tx);
            let ghost old_rates = rate_models(rates);
            let ghost new_ring = ring@;
            let _ = rates.insert(name, ring);
            proof {
                assert(rate_models(self.rates) =~= rate_models(before.rates).remove(key));
                assert(self@.rates =~= was.rates.remove_keys(done.insert(key)));
                assert(rate_models(rates) =~= old_rates.insert(key, new_ring));
                assert(rate_models(rates) =~= was.sampled(counters).rates.restrict(done.insert(key)));
                assert(self@ =~= partly_sampled(was, counters, done.insert(key), self@.rates));
            }
            i += 1;
        }
        self.rates = rates;
        proof {
            assert(names.take(n as int) =~= names);
            assert(rate_models(self.rates) =~= was.sampled(counters).rates);
            assert(self@ =~= was.sampled(counters));
        }
    }

    /// Notes the counter of a source, where the source is known.
    fn set_counter(&mut self, name: &str, tx: u64)
        requires
            old(self).wf(),
        ensures
            final(self).wf(),
            final(self).rates == old(self).rates,
            final(self)@ == (HealthModel {
                sources: if old(self)@.sources.dom().contains(name@) {
                    old(self)@.sources.insert(
                        name@,
                        (SnapshotModel { transactions: Some(tx), ..old(self)@.sources[name@] }),
                    )
                } else {
                    old(self)@.sources
                },
                ..old(self)@
            }),
    {
        let ghost before = self@;
        if let Some(row) = self.sources.remove(name) {
            let mut changed = row;
            changed.transactions_processed = Some(tx);
            let _ = self.sources.insert(text_of(chars_of(name).as_slice()), changed);
            assert(self@.sources =~= before.sources.insert(
                name@,
                (SnapshotModel { transactions: Some(tx), ..before.sources[name@] }),
            ));
        } else {
            assert(self@.sources =~= before.sources);
        }
    }
}

/// What is known after the counters of some sources were noted.
pub open spec fn partly_sampled(
    was: HealthModel,
    seen: Map<Seq<char>, u64>,
    names: Set<Seq<char>>,
    rates: Map<Seq<char>, RateModel>,
) -> HealthModel {
    HealthModel {
        sources: Map::new(
            |x: Seq<char>| was.sources.dom().contains(x),
            |x: Seq<char>|
                if names.contains(x) {
                    SnapshotModel { transactions: Some(seen[x]), ..was.sources[x] }
                } else {
                    was.sources[x]
                },
        ),
        rates,
        ..was
    }
}

/// Reads the counters that mirrors show.
fn read_counters(polls: &[Poll]) -> (r: NameTable<u64>)
    ensures
        r.wf(),
        r@ == counters_of(polls@, polls@.len()),
{
    let mut seen: NameTable<u64> = NameTable::new();
    let mut i: usize = 0;
    while i < polls.len()
        invariant
            seen.wf(),
            i <= polls@.len(),
            seen@ == counters_of(polls@, i as nat),
        decreases polls.len() - i,
    {
        if let Some(entries) = list_of(&polls[i]) {
            let ghost before = seen@;
            let mut k: usize = 0;
            while k < entries.len()
                invariant
                    seen.wf(),
                    k <= entries@.len(),
                    seen@ == counters_in(before, entries@, k as nat),
                decreases entries.len() - k,
            {
                let e = &entries[k];
                if let (Some(d), Some(tx)) = (text_of_member(e, "database"), uint_of_member(e, "transactions_processed")) {
                    let _ = seen.insert(source_name_for_database(d.as_str()), tx);
                }
                k += 1;
            }
        }
        i += 1;
    }
    seen
}

/// The first failure of a mirror changes nothing: its rows stay.
pub proof fn law_first_failure_is_forgiven(prior: Map<Seq<char>, SnapshotModel>, fails: Map<Seq<char>, u32>, p: Poll)
    requires
        entries_of(p) is None,
        !fails.dom().contains(p.url@) || fails[p.url@] == 0,
    ensures
        rows_for(prior, fails, p) == prior,
{
}

/// From the second failure in a row on, the sources are shown as unreachable.
pub proof fn law_later_failures_are_told(
    prior: Map<Seq<char>, SnapshotModel>,
    fails: Map<Seq<char>, u32>,
    p: Poll,
    name: Seq<char>,
)
    requires
        entries_of(p) is None,
        fails.dom().contains(p.url@) && fails[p.url@] >= 1,
        prior.dom().contains(name),
    ensures
        rows_for(prior, fails, p).dom().contains(name),
        !reachable(rows_for(prior, fails, p)[name]),
{
}

/// Number of failures of a mirror among the first `n` polls of a run, since it
/// answered last.
pub open spec fn streak(run: Seq<Poll>, url: Seq<char>, n: nat) -> nat
    decreases n,
{
    if n == 0 {
        0
    } else {
        let before = streak(run, url, (n - 1) as nat);
        if run[n - 1].url@ != url {
            before
        } else if entries_of(run[n - 1]) is Some {
            0
        } else {
            before + 1
        }
    }
}

/// The counts of failures after the first `n` polls of a run.
pub open spec fn counted(fails: Map<Seq<char>, u32>, run: Seq<Poll>, n: nat) -> Map<Seq<char>, u32>
    decreases n,
{
    if n == 0 {
        fails
    } else {
        let before = counted(fails, run, (n - 1) as nat);
        before.insert(run[n - 1].url@, failures(before, run[n - 1]))
    }
}

/// All polls of the first `n` rounds, one after the other.
pub open spec fn polls_of(rounds: Seq<Seq<Poll>>, n: nat) -> Seq<Poll>
    decreases n,
{
    if n == 0 {
        Seq::empty()
    } else {
        polls_of(rounds, (n - 1) as nat) + rounds[n - 1]
    }
}

/// What is known after the mirrors were asked in the first `n` rounds.
pub open spec fn after_rounds(start: HealthModel, rounds: Seq<Seq<Poll>>, n: nat) -> HealthModel
    decreases n,
{
    if n == 0 {
        start
    } else {
        after_rounds(start, rounds, (n - 1) as nat).refreshed(rounds[n - 1])
    }
}

/// The count of a mirror is the number of its failures since it answered last.
proof fn lemma_counted(run: Seq<Poll>, n: nat, url: Seq<char>)
    requires
        n <= run.len(),
        n < u32::MAX,
    ensures
        ({
            let fails = counted(Map::empty(), run, n);
            &&& streak(run, url, n) <= n
            &&& fails.dom().contains(url) ==> fails[url] == streak(run, url, n)
            &&& !fails.dom().contains(url) ==> streak(run, url, n) == 0
        }),
    decreases n,
{
    if n > 0 {
        lemma_counted(run, (n - 1) as nat, url);
    }
}

/// Counting goes on where it stopped.
proof fn lemma_counted_on(fails: Map<Seq<char>, u32>, a: Seq<Poll>, b: Seq<Poll>, n: nat)
    requires
        n <= b.len(),
    ensures
        counted(fails, a + b, a.len() + n) == counted(counted(fails, a, a.len()), b, n),
    decreases a.len() + n,
{
    if n > 0 {
        lemma_counted_on(fails, a, b, (n - 1) as nat);
        assert((a + b)[a.len() + n - 1] == b[n - 1]);
    } else {
        lemma_counted_prefix(fails, a, b, a.len());
    }
}

/// What comes later does not count earlier.
proof fn lemma_counted_prefix(fails: Map<Seq<char>, u32>, a: Seq<Poll>, b: Seq<Poll>, n: nat)
    requires
        n <= a.len(),
    ensures
        counted(fails, a + b, n) == counted(fails, a, n),
    decreases n,
{
    if n > 0 {
        lemma_counted_prefix(fails, a, b, (n - 1) as nat);
        assert((a + b)[n - 1] == a[n - 1]);
    }
}

/// The counts of a round.
proof fn lemma_round_counts(g: Gathered, prior: Map<Seq<char>, SnapshotModel>, polls: Seq<Poll>, n: nat)
    ensures
        g.with_all(prior, polls, n).fails == counted(g.fails, polls, n),
    decreases n,
{
    if n > 0 {
        lemma_round_counts(g, prior, polls, (n - 1) as nat);
    }
}

/// Failures are counted over all rounds: after them, the count of a mirror is
/// the number of its failures since it answered last, or since the start.
pub proof fn law_failures_are_counted_since_the_last_answer(rounds: Seq<Seq<Poll>>, n: nat, url: Seq<char>)
    requires
        n <= rounds.len(),
        polls_of(rounds, n).len() < u32::MAX,
    ensures
        ({
            let start = HealthModel { sources: Map::empty(), rates: Map::empty(), fails: Map::empty() };
            let fails = after_rounds(start, rounds, n).fails;
            let run = polls_of(rounds, n);
            &&& fails == counted(Map::empty(), run, run.len())
            &&& fails.dom().contains(url) ==> fails[url] == streak(run, url, run.len())
            &&& !fails.dom().contains(url) ==> streak(run, url, run.len()) == 0
        }),
    decreases n,
{
    let run = polls_of(rounds, n);
    let start = HealthModel { sources: Map::empty(), rates: Map::empty(), fails: Map::empty() };
    lemma_counted(run, run.len(), url);
    if n > 0 {
        let p = (n - 1) as nat;
        let before = polls_of(rounds, p);
        let known = after_rounds(start, rounds, p);
        law_failures_are_counted_since_the_last_answer(rounds, p, url);
        lemma_counted_on(Map::empty(), before, rounds[n - 1], rounds[n - 1].len());
        let g = Gathered { fresh: Map::empty(), degraded: Map::empty(), fails: known.fails };
        lemma_round_counts(g, known.sources, rounds[n - 1], rounds[n - 1].len());
    }
}

/// What a failed poll of a mirror makes of the sources that are known. With one
/// failure since the mirror answered last, nothing changes. From the second one
/// on, every source is kept and shown as unreachable, and nothing else of it
/// changes. No source is dropped, and other mirrors are counted as before.
pub proof fn law_a_failed_poll_keeps_every_source(
    prior: Map<Seq<char>, SnapshotModel>,
    run: Seq<Poll>,
    p: Poll,
    name: Seq<char>,
    other: Seq<char>,
)
    requires
        entries_of(p) is None,
        run.len() < u32::MAX - 1,
        other != p.url@,
    ensures
        ({
            let fails = counted(Map::empty(), run, run.len());
            let after = counted(Map::empty(), run.push(p), run.push(p).len());
            let k = streak(run.push(p), p.url@, run.push(p).len());
            let rows = rows_for(prior, fails, p);
            &&& k == streak(run, p.url@, run.len()) + 1
            &&& after.dom().contains(p.url@) && after[p.url@] == k
            &&& after.dom().contains(other) == fails.dom().contains(other)
            &&& fails.dom().contains(other) ==> after[other] == fails[other]
            &&& rows.dom() == prior.dom()
            &&& k <= 1 || prior.dom() == Set::<Seq<char>>::empty() ==> rows == prior
            &&& k >= 2 && prior.dom().contains(name) ==> rows[name] == (SnapshotModel {
                connectivity: Some(UNREACHABLE@),
                ..prior[name]
            })
        }),
{
    let more = run.push(p);
    let fails = counted(Map::empty(), run, run.len());
    lemma_counted(run, run.len(), p.url@);
    lemma_counted_on(Map::empty(), run, seq![p], 1);
    lemma_counted_prefix(Map::empty(), run, seq![p], run.len());
    assert(more =~= run + seq![p]);
    lemma_counted(more, more.len(), p.url@);
    lemma_streak_prefix(run, p, p.url@, run.len());
    let rows = rows_for(prior, fails, p);
    assert(rows.dom() =~= prior.dom());
    if prior.dom() == Set::<Seq<char>>::empty() {
        assert(rows =~= prior);
    }
}

/// What comes later does not count earlier.
proof fn lemma_streak_prefix(run: Seq<Poll>, p: Poll, url: Seq<char>, n: nat)
    requires
        n <= run.len(),
    ensures
        streak(run.push(p), url, n) == streak(run, url, n),
    decreases n,
{
    if n > 0 {
        lemma_streak_prefix(run, p, url, (n - 1) as nat);
    }
}

/// A round in which some mirror fails drops no source: whatever was known is
/// still shown.
pub proof fn law_a_round_with_a_failure_drops_no_source(known: HealthModel, polls: Seq<Poll>, k: int, name: Seq<char>)
    requires
        0 <= k < polls.len(),
        entries_of(polls[k]) is None,
        known.sources.dom().contains(name),
    ensures
        known.refreshed(polls).sources.dom().contains(name),
{
    let start = Gathered { fresh: Map::empty(), degraded: Map::empty(), fails: known.fails };
    lemma_source_is_gathered(start, known.sources, polls, k, polls.len(), name);
}

/// What a failed poll kept is gathered.
proof fn lemma_source_is_gathered(
    g: Gathered,
    prior: Map<Seq<char>, SnapshotModel>,
    polls: Seq<Poll>,
    k: int,
    n: nat,
    name: Seq<char>,
)
    requires
        0 <= k < n,
        entries_of(polls[k]) is None,
        prior.dom().contains(name),
    ensures
        g.with_all(prior, polls, n).fresh.dom().contains(name) || g.with_all(prior, polls, n).degraded.dom().contains(name),
    decreases n,
{
    if n > k + 1 {
        lemma_source_is_gathered(g, prior, polls, k, (n - 1) as nat, name);
    } else {
        let rows = rows_for(prior, g.with_all(prior, polls, k as nat).fails, polls[k]);
        assert(rows.dom().contains(name));
    }
}

/// A source that one of the mirrors reaches is shown as reached, whatever
/// other mirrors fail before or after it.
pub proof fn law_failures_do_not_shadow_fresh_rows(
    start: Gathered,
    prior: Map<Seq<char>, SnapshotModel>,
    polls: Seq<Poll>,
    k: int,
    n: nat,
    name: Seq<char>,
)
    requires
        0 <= k < n,
        forall|x: Seq<char>| #[trigger] start.fresh.dom().contains(x) ==> reachable(start.fresh[x]),
        ({
            let rows = rows_for(prior, start.with_all(prior, polls, k as nat).fails, polls[k]);
            rows.dom().contains(name) && reachable(rows[name])
        }),
    ensures
        start.with_all(prior, polls, n).rows().dom().contains(name),
        reachable(start.with_all(prior, polls, n).rows()[name]),
        start.with_all(prior, polls, n).fresh.dom().contains(name),
        reachable(start.with_all(prior, polls, n).fresh[name]),
    decreases n,
{
    if n > k + 1 {
        law_failures_do_not_shadow_fresh_rows(start, prior, polls, k, (n - 1) as nat, name);
    }
}

/// Whether an entry of a mirror is one of a source.
pub open spec fn is_of_source(entry: Json, source: Seq<char>) -> bool {
    database_at(entry).len() > 0 && source_of(database_at(entry)) == source
}

/// The last entry of a source counts.
proof fn lemma_last_entry(entries: Seq<Json>, now: u64, n: nat, i: int, source: Seq<char>)
    requires
        0 <= i < n <= entries.len(),
        is_of_source(entries[i], source),
        forall|j: int| i < j < n ==> !is_of_source(#[trigger] entries[j], source),
    ensures
        rows_in(entries, now, n).dom().contains(source),
        rows_in(entries, now, n)[source] == row_of(entries[i], now),
    decreases n,
{
    if n > i + 1 {
        lemma_last_entry(entries, now, (n - 1) as nat, i, source);
        assert(!is_of_source(entries[n - 1], source));
    }
}

/// A source that no entry is of has no row.
proof fn lemma_no_entry(entries: Seq<Json>, now: u64, n: nat, source: Seq<char>)
    requires
        n <= entries.len(),
        forall|j: int| 0 <= j < n ==> !is_of_source(#[trigger] entries[j], source),
    ensures
        !rows_in(entries, now, n).dom().contains(source),
    decreases n,
{
    if n > 0 {
        lemma_no_entry(entries, now, (n - 1) as nat, source);
        assert(!is_of_source(entries[n - 1], source));
    }
}

/// Whether a mirror answered with a list of mirrors.
pub open spec fn answered_with(p: Poll, list: Seq<Json>) -> bool {
    p.body matches Some(b) && exists|a: Vec<Json>| a@ == list && #[trigger] has_member(b, "mirrors"@, Json::Array(a))
}

/// What a mirror answered is the list that it has.
proof fn lemma_answer(p: Poll, list: Seq<Json>)
    requires
        answered_with(p, list),
    ensures
        entries_of(p) == Some(list),
{
    let b = p.body->Some_0;
    let a = choose|a: Vec<Json>| a@ == list && #[trigger] has_member(b, "mirrors"@, Json::Array(a));
    law_members_are_found_by_name(b, "mirrors"@, Json::Array(a));
}

/// The row of a source that was reached stays, where later answers tell nothing
/// of it.
proof fn lemma_row_stays(
    start: Gathered,
    prior: Map<Seq<char>, SnapshotModel>,
    polls: Seq<Poll>,
    k: int,
    list: Seq<Json>,
    i: int,
    source: Seq<char>,
    n: nat,
)
    requires
        0 <= k < n <= polls.len(),
        entries_of(polls[k]) == Some(list),
        0 <= i < list.len(),
        is_of_source(list[i], source),
        forall|j: int| i < j < list.len() ==> !is_of_source(#[trigger] list[j], source),
        text_at(list[i], "connectivity"@) != Some(UNREACHABLE@),
        forall|m: int|
            k < m < polls.len() ==> (entries_of(#[trigger] polls[m]) matches Some(l) && forall|j: int|
                0 <= j < l.len() ==> !is_of_source(#[trigger] l[j], source)),
    ensures
        start.with_all(prior, polls, n).fresh.dom().contains(source),
        start.with_all(prior, polls, n).fresh[source] == row_of(list[i], polls[k].now_unix),
    decreases n,
{
    let p = polls[n - 1];
    let l = entries_of(p)->Some_0;
    if n > k + 1 {
        lemma_row_stays(start, prior, polls, k, list, i, source, (n - 1) as nat);
        assert(entries_of(polls[n - 1]) is Some);
        lemma_no_entry(l, p.now_unix, l.len(), source);
    } else {
        lemma_last_entry(list, p.now_unix, list.len(), i, source);
    }
}

/// After a round the row of a source says what the last entry of it says that a
/// mirror answered with, in each field what the member of that name says.
pub proof fn law_a_round_shows_what_was_answered(
    before: HealthModel,
    polls: Seq<Poll>,
    k: int,
    list: Seq<Json>,
    i: int,
    database: Seq<char>,
    after: NameTable<SourceSnapshot>,
)
    requires
        models(after) == before.refreshed(polls).sources,
        0 <= k < polls.len(),
        answered_with(polls[k], list),
        0 <= i < list.len(),
        database.len() > 0,
        has_text_member(list[i], "database"@, database),
        forall|j: int| i < j < list.len() ==> !is_of_source(#[trigger] list[j], source_of(database)),
        text_at(list[i], "connectivity"@) != Some("unreachable"@),
        forall|m: int|
            k < m < polls.len() ==> (entries_of(#[trigger] polls[m]) matches Some(l) && forall|j: int|
                0 <= j < l.len() ==> !is_of_source(#[trigger] l[j], source_of(database))),
    ensures
        after@.dom().contains(source_of(database)),
        tells(after@[source_of(database)], list[i]),
        after@[source_of(database)].last_success_unix == Some(polls[k].now_unix),
{
    let source = source_of(database);
    lemma_members(list[i], "database"@);
    lemma_answer(polls[k], list);
    let start = Gathered { fresh: Map::empty(), degraded: Map::empty(), fails: before.fails };
    lemma_row_stays(start, before.sources, polls, k, list, i, source, polls.len());
    assert(before.refreshed(polls).sources.dom().contains(source));
    assert(models(after).dom().contains(source));
    let end = start.with_all(before.sources, polls, polls.len());
    assert(end.rows()[source] == end.fresh[source]);
    assert(models(after)[source] == after@[source]@);
    law_rows_say_what_their_entries_say(after@[source], list[i], polls[k].now_unix);
}

/// A look at the counters sets the transactions of each source that was seen, and
/// adds to its rate by how much the counter grew. A source that was not seen keeps
/// its row and has no rate any more.
pub proof fn law_counters_reach_their_sources(m: HealthModel, seen: Map<Seq<char>, u64>, x: Seq<char>)
    ensures
        ({
            let after = m.sampled(seen);
            &&& after.sources.dom() == m.sources.dom()
            &&& after.fails == m.fails
            &&& m.sources.dom().contains(x) && seen.dom().contains(x) ==> after.sources[x].transactions == Some(seen[x])
                && after.sources[x].connectivity == m.sources[x].connectivity && after.sources[x].database
                == m.sources[x].database
            &&& m.sources.dom().contains(x) && !seen.dom().contains(x) ==> after.sources[x] == m.sources[x]
            &&& after.rates.dom().contains(x) <==> seen.dom().contains(x)
            &&& seen.dom().contains(x) ==> after.rates[x].last == Some(seen[x])
            &&& seen.dom().contains(x) && !m.rates.dom().contains(x) ==> after.rates[x].growth.len() == 0
        }),
{
    assert(m.sampled(seen).sources.dom() =~= m.sources.dom());
}

/// The counter of a source is the one that the last entry of it shows.
pub proof fn law_counters_are_those_of_the_last_entry(
    seen: Map<Seq<char>, u64>,
    entries: Seq<Json>,
    i: int,
    database: Seq<char>,
    tx: u64,
)
    requires
        0 <= i < entries.len(),
        has_text_member(entries[i], "database"@, database),
        has_count_member(entries[i], "transactions_processed"@, tx),
        forall|j: int|
            i < j < entries.len() ==> (text_at(#[trigger] entries[j], "database"@) matches Some(d) ==> source_of(d)
                != source_of(database)),
    ensures
        ({
            let after = counters_in(seen, entries, entries.len());
            after.dom().contains(source_of(database)) && after[source_of(database)] == tx
        }),
{
    lemma_members(entries[i], "database"@);
    lemma_members(entries[i], "transactions_processed"@);
    lemma_counter_stays(seen, entries, i, database, tx, entries.len());
}

proof fn lemma_counter_stays(
    seen: Map<Seq<char>, u64>,
    entries: Seq<Json>,
    i: int,
    database: Seq<char>,
    tx: u64,
    n: nat,
)
    requires
        0 <= i < n <= entries.len(),
        text_at(entries[i], "database"@) == Some(database),
        uint_at(entries[i], "transactions_processed"@) == Some(tx),
        forall|j: int|
            i < j < entries.len() ==> (text_at(#[trigger] entries[j], "database"@) matches Some(d) ==> source_of(d)
                != source_of(database)),
    ensures
        ({
            let after = counters_in(seen, entries, n);
            after.dom().contains(source_of(database)) && after[source_of(database)] == tx
        }),
    decreases n,
{
    if i < n - 1 {
        lemma_counter_stays(seen, entries, i, database, tx, (n - 1) as nat);
    }
}

} // verus!
