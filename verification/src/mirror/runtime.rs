//! Sessions with the database that is mirrored: which tables to subscribe to,
//! what an error asks for, and when to try again.

use vstd::prelude::*;

use crate::hex_text::{encode, hex_of};
use crate::mirror::apply::{ExternalProvenance, MirroredUpdate, TableOps};
use crate::name_table::NameTable;
use crate::text::{
    chars_of, decimal, has_text, lemma_texts_push, push_chars, push_decimal, same_text, text_of, texts,
};

verus! {

/// Largest number of seconds before the next try.
pub const BACKOFF_MAX_SECS: u64 = 30;

/// Milliseconds that a session has to live before it counts as stable.
pub const STABLE_THRESHOLD_MS: u64 = 5000;

/// Why a session ended.
#[derive(Debug)]
pub enum UpstreamError {
    Connect(String),
    WebSocket(String),
    Decode(String),
    Subscription(String),
    UnknownTable(String),
    NotProduct(String),
    Apply(String),
    Closed(String),
    /// The subscription to a table took longer than this many seconds.
    SubscribeTimeout(String, u64),
    /// The subscription to a table made no progress for this many seconds.
    SubscribeStalled(String, u64),
    Backlog { queued: usize, max: usize },
    /// Nothing was heard for this many seconds.
    ProbeTimeout(u64),
}

/// Whether an error may come of an outdated schema. Errors of the network do
/// not.
pub open spec fn hints_at_schema(e: UpstreamError) -> bool {
    ||| e is WebSocket
    ||| e is Decode
    ||| e is Subscription
    ||| e is UnknownTable
    ||| e is NotProduct
    ||| e is Apply
    ||| e is Closed
}

/// Whether the schema has to be fetched again after an error.
pub fn should_refetch_schema(error: &UpstreamError) -> (r: bool)
    ensures
        r <==> hints_at_schema(*error),
{
    match error {
        UpstreamError::WebSocket(_)
        | UpstreamError::Decode(_)
        | UpstreamError::Subscription(_)
        | UpstreamError::UnknownTable(_)
        | UpstreamError::NotProduct(_)
        | UpstreamError::Apply(_)
        | UpstreamError::Closed(_) => true,
        UpstreamError::Connect(_)
        | UpstreamError::SubscribeTimeout(_, _)
        | UpstreamError::SubscribeStalled(_, _)
        | UpstreamError::Backlog { .. }
        | UpstreamError::ProbeTimeout(_) => false,
    }
}

/// The schema of the database is no longer the one that the mirror was made
/// from.
#[derive(Debug)]
pub struct SchemaChanged {
    pub database: String,
    pub old_hash: [u8; 32],
    pub new_hash: [u8; 32],
    pub old_tables: usize,
    pub new_tables: usize,
}

impl SchemaChanged {
    /// The change in words.
    pub open spec fn text(self) -> Seq<char> {
        "upstream schema changed for `"@ + self.database@ + "`: "@ + hex_of(self.old_hash@) + " -> "@ + hex_of(
            self.new_hash@,
        ) + " (tables "@ + decimal(self.old_tables as nat) + " -> "@ + decimal(self.new_tables as nat) + ")"@
    }

    /// The change in words.
    pub fn message(&self) -> (r: String)
        ensures
            r@ == self.text(),
    {
        let mut out = text_of(chars_of("upstream schema changed for `").as_slice());
        push_chars(&mut out, chars_of(self.database.as_str()).as_slice());
        push_chars(&mut out, chars_of("`: ").as_slice());
        push_chars(&mut out, chars_of(encode(self.old_hash.as_slice()).as_str()).as_slice());
        push_chars(&mut out, chars_of(" -> ").as_slice());
        push_chars(&mut out, chars_of(encode(self.new_hash.as_slice()).as_str()).as_slice());
        push_chars(&mut out, chars_of(" (tables ").as_slice());
        push_decimal(&mut out, self.old_tables as u64);
        push_chars(&mut out, chars_of(" -> ").as_slice());
        push_decimal(&mut out, self.new_tables as u64);
        push_chars(&mut out, chars_of(")").as_slice());
        out
    }
}

/// A schema as it was fetched: its digest and its number of tables.
#[derive(Debug, Clone, Copy)]
pub struct FetchedSchema {
    pub hash: [u8; 32],
    pub tables: usize,
}

/// Whether two digests are the same.
fn same_hash(a: &[u8; 32], b: &[u8; 32]) -> (r: bool)
    ensures
        r <==> a@ == b@,
{
    let mut i: usize = 0;
    while i < 32
        invariant
            i <= 32,
            forall|k: int| 0 <= k < i ==> a@[k] == b@[k],
        decreases 32 - i,
    {
        if a[i] != b[i] {
            return false;
        }
        i += 1;
    }
    assert(a@ =~= b@);
    true
}

/// Whether the end of a session shows that the schema changed: the error may
/// come of it, the schema could be fetched, and its digest is another one.
pub fn detect_schema_change(
    database: &str,
    error: &UpstreamError,
    fetched: Option<FetchedSchema>,
    bootstrap_hash: &[u8; 32],
    old_tables: usize,
) -> (r: Option<SchemaChanged>)
    ensures
        match r {
            Some(c) => {
                &&& hints_at_schema(*error)
                &&& fetched matches Some(f)
                &&& f.hash@ != bootstrap_hash@
                &&& c.database@ == database@
                &&& c.old_hash@ == bootstrap_hash@
                &&& c.new_hash@ == f.hash@
                &&& c.old_tables == old_tables
                &&& c.new_tables == f.tables
            },
            None => !hints_at_schema(*error) || fetched is None || fetched->Some_0.hash@ == bootstrap_hash@,
        },
{
    if !should_refetch_schema(error) {
        return None;
    }
    match fetched {
        Some(f) => {
            if same_hash(&f.hash, bootstrap_hash) {
                None
            } else {
                Some(
                    SchemaChanged {
                        database: text_of(chars_of(database).as_slice()),
                        old_hash: *bootstrap_hash,
                        new_hash: f.hash,
                        old_tables,
                        new_tables: f.tables,
                    },
                )
            }
        },
        None => None,
    }
}

/// Tables of a list that are not in another.
pub open spec fn is_not_in(list: Seq<Seq<char>>) -> spec_fn(Seq<char>) -> bool {
    |t: Seq<char>| !list.contains(t)
}

/// Event tables whose events are passed on.
pub open spec fn is_passed_on(allowed: Seq<Seq<char>>, events: Seq<Seq<char>>) -> spec_fn(Seq<char>) -> bool {
    |t: Seq<char>| events.contains(t) && allowed.contains(t)
}

/// Event tables whose events are not passed on.
pub open spec fn is_held_off(allowed: Seq<Seq<char>>, events: Seq<Seq<char>>) -> spec_fn(Seq<char>) -> bool {
    |t: Seq<char>| events.contains(t) && !allowed.contains(t)
}

/// Splits the event tables of a list into those that are passed on and those
/// that are not. What counts as an event table is what the schema says, not
/// the name.
pub fn partition_event_tables(tables: &[String], allowlist: &[String], event_tables: &[String]) -> (r: (
    Vec<String>,
    Vec<String>,
))
    ensures
        texts(r.0@) == texts(tables@).filter(is_passed_on(texts(allowlist@), texts(event_tables@))),
        texts(r.1@) == texts(tables@).filter(is_held_off(texts(allowlist@), texts(event_tables@))),
{
    let ghost all = texts(tables@);
    let ghost f = is_passed_on(texts(allowlist@), texts(event_tables@));
    let ghost g = is_held_off(texts(allowlist@), texts(event_tables@));
    let mut passed: Vec<String> = Vec::new();
    let mut held: Vec<String> = Vec::new();
    let mut i: usize = 0;
    proof {
        reveal(Seq::filter);
        assert(texts(passed@) =~= all.take(0).filter(f));
        assert(texts(held@) =~= all.take(0).filter(g));
    }
    while i < tables.len()
        invariant
            all == texts(tables@),
            f == is_passed_on(texts(allowlist@), texts(event_tables@)),
            g == is_held_off(texts(allowlist@), texts(event_tables@)),
            i <= tables@.len(),
            texts(passed@) == all.take(i as int).filter(f),
            texts(held@) == all.take(i as int).filter(g),
        decreases tables.len() - i,
    {
        let t = &tables[i];
        proof {
            reveal(Seq::filter);
            assert(all.take(i + 1).drop_last() =~= all.take(i as int));
            assert(all.take(i + 1).last() == t@);
        }
        if has_text(event_tables, t.as_str()) {
            let copy = t.clone();
            if has_text(allowlist, t.as_str()) {
                proof {
                    lemma_texts_push(passed@, copy);
                }
                passed.push(copy);
            } else {
                proof {
                    lemma_texts_push(held@, copy);
                }
                held.push(copy);
            }
        }
        i += 1;
    }
    assert(all.take(i as int) =~= all);
    (passed, held)
}

/// The tables of a list that are not in another.
fn without(tables: &[String], other: &[String]) -> (r: Vec<String>)
    ensures
        texts(r@) == texts(tables@).filter(is_not_in(texts(other@))),
{
    let ghost all = texts(tables@);
    let ghost f = is_not_in(texts(other@));
    let mut out: Vec<String> = Vec::new();
    let mut i: usize = 0;
    proof {
        reveal(Seq::filter);
        assert(texts(out@) =~= all.take(0).filter(f));
    }
    while i < tables.len()
        invariant
            all == texts(tables@),
            f == is_not_in(texts(other@)),
            i <= tables@.len(),
            texts(out@) == all.take(i as int).filter(f),
        decreases tables.len() - i,
    {
        let t = &tables[i];
        proof {
            reveal(Seq::filter);
            assert(all.take(i + 1).drop_last() =~= all.take(i as int));
            assert(all.take(i + 1).last() == t@);
        }
        if !has_text(other, t.as_str()) {
            let copy = t.clone();
            proof {
                lemma_texts_push(out@, copy);
            }
            out.push(copy);
        }
        i += 1;
    }
    assert(all.take(i as int) =~= all);
    out
}

/// What to subscribe to.
#[derive(Debug)]
pub struct TablePlan {
    /// The tables in the order of the subscriptions.
    pub subscribe: Vec<String>,
    /// Event tables whose events are passed on.
    pub forwarded: Vec<String>,
    /// Event tables that are left out.
    pub excluded: Vec<String>,
    /// Event tables that were to be passed on but are not there.
    pub unknown: Vec<String>,
    /// The tables that are emptied before a new session: events leave no rows.
    pub flush: Vec<String>,
}

/// The tables to choose from: those that were asked for, else all.
pub open spec fn candidates(asked: Option<Seq<Seq<char>>>, public: Seq<Seq<char>>) -> Seq<Seq<char>> {
    match asked {
        Some(t) if t.len() > 0 => t,
        _ => public,
    }
}

/// Whether a plan is the one for some tables. The tables that hold rows come
/// first, in their order; then the event tables that are passed on.
pub open spec fn is_plan(tables: Seq<Seq<char>>, allowed: Seq<Seq<char>>, events: Seq<Seq<char>>, p: TablePlan) -> bool {
    let forwarded = tables.filter(is_passed_on(allowed, events));
    let subscribe = tables.filter(is_not_in(events)) + forwarded;
    &&& texts(p.forwarded@) == forwarded
    &&& texts(p.excluded@) == tables.filter(is_held_off(allowed, events))
    &&& texts(p.subscribe@) == subscribe
    &&& texts(p.unknown@) == allowed.filter(is_not_in(forwarded))
    &&& texts(p.flush@) == subscribe.filter(is_not_in(forwarded))
}

/// The texts of optional strings.
pub open spec fn asked_texts(asked: Option<&[String]>) -> Option<Seq<Seq<char>>> {
    match asked {
        Some(t) => Some(texts(t@)),
        None => None,
    }
}

/// Whether a list of names has a name.
pub open spec fn names(list: Seq<String>, name: Seq<char>) -> bool {
    exists|i: int| 0 <= i < list.len() && (#[trigger] list[i])@ == name
}

/// Whether a table is wanted: where a list of tables was asked for that is not
/// empty, it has the table; else the database has it.
pub open spec fn is_wanted(asked: Option<&[String]>, public: Seq<String>, name: Seq<char>) -> bool {
    if asked matches Some(t) && t@.len() > 0 {
        names(asked->Some_0@, name)
    } else {
        names(public, name)
    }
}

/// Whether a plan is the one for a database.
pub open spec fn planned(
    asked: Option<&[String]>,
    public: Seq<String>,
    allowlist: Seq<String>,
    event_tables: Seq<String>,
    r: Option<TablePlan>,
) -> bool {
    let tables = candidates(asked_texts(asked), texts(public));
    match r {
        Some(p) => tables.len() > 0 && is_plan(tables, texts(allowlist), texts(event_tables), p),
        None => tables.len() == 0,
    }
}

/// A text is in a list where one of its strings is that text.
proof fn lemma_names(list: Seq<String>, name: Seq<char>)
    ensures
        names(list, name) <==> texts(list).contains(name),
{
    if names(list, name) {
        let i = choose|i: int| 0 <= i < list.len() && (#[trigger] list[i])@ == name;
        assert(texts(list)[i] == name);
    }
    if texts(list).contains(name) {
        let i = choose|i: int| 0 <= i < texts(list).len() && texts(list)[i] == name;
        assert(list[i]@ == name);
    }
}

/// There is a plan where a table is wanted. It subscribes to every wanted table
/// that keeps rows and to every wanted event table on the list of events to
/// pass on, and to nothing else. Event tables that are subscribed to are passed
/// on; the other wanted ones are left out. What is emptied between two sessions
/// are the tables that keep rows.
pub proof fn law_a_plan_follows_what_was_asked(
    asked: Option<&[String]>,
    public: Seq<String>,
    allowlist: Seq<String>,
    event_tables: Seq<String>,
    r: Option<TablePlan>,
    name: Seq<char>,
)
    requires
        planned(asked, public, allowlist, event_tables, r),
    ensures
        r is None ==> !is_wanted(asked, public, name),
        r is None <==> (if asked matches Some(t) && t@.len() > 0 {
            false
        } else {
            public.len() == 0
        }),
        r matches Some(p) ==> {
            let wanted = is_wanted(asked, public, name);
            let event = names(event_tables, name);
            let allowed = names(allowlist, name);
            &&& names(p.subscribe@, name) <==> wanted && (event ==> allowed)
            &&& names(p.forwarded@, name) <==> wanted && event && allowed
            &&& names(p.excluded@, name) <==> wanted && event && !allowed
            &&& names(p.unknown@, name) <==> allowed && !(wanted && event)
            &&& names(p.flush@, name) <==> wanted && !event
        },
{
    let tables = candidates(asked_texts(asked), texts(public));
    let (allowed, events) = (texts(allowlist), texts(event_tables));
    if let Some(t) = asked {
        lemma_names(t@, name);
    }
    lemma_names(public, name);
    lemma_names(allowlist, name);
    lemma_names(event_tables, name);
    if let Some(p) = r {
        let forwarded = tables.filter(is_passed_on(allowed, events));
        lemma_names(p.subscribe@, name);
        lemma_names(p.forwarded@, name);
        lemma_names(p.excluded@, name);
        lemma_names(p.unknown@, name);
        lemma_names(p.flush@, name);
        lemma_filtered(tables, is_passed_on(allowed, events), name);
        lemma_filtered(tables, is_held_off(allowed, events), name);
        lemma_filtered(allowed, is_not_in(forwarded), name);
        lemma_filtered(texts(p.subscribe@), is_not_in(forwarded), name);
        law_plan_leaves_out_only_unwanted_events(tables, allowed, events, p, name);
    }
}

/// Plans the subscriptions of a database; `None` where there is no table.
pub fn plan_tables(asked: Option<&[String]>, public: &[String], allowlist: &[String], event_tables: &[String]) -> (r: Option<
    TablePlan,
>)
    ensures
        planned(asked, public@, allowlist@, event_tables@, r),
        r matches Some(p) ==> forall|name: Seq<char>| #[trigger]
            names(p.subscribe@, name) ==> is_wanted(asked, public@, name),
{
    let tables: &[String] = match asked {
        Some(t) => if t.len() > 0 {
            t
        } else {
            public
        },
        None => public,
    };
    if tables.len() == 0 {
        return None;
    }
    let (forwarded, excluded) = partition_event_tables(tables, allowlist, event_tables);
    let mut subscribe = without(tables, event_tables);
    let ghost state = texts(subscribe@);
    let mut i: usize = 0;
    assert(texts(subscribe@) =~= state + texts(forwarded@).take(0));
    while i < forwarded.len()
        invariant
            i <= forwarded@.len(),
            texts(subscribe@) == state + texts(forwarded@).take(i as int),
        decreases forwarded.len() - i,
    {
        let copy = forwarded[i].clone();
        proof {
            lemma_texts_push(subscribe@, copy);
            assert(texts(forwarded@).take(i + 1) =~= texts(forwarded@).take(i as int).push(copy@));
            assert((state + texts(forwarded@).take(i as int)).push(copy@) =~= state + texts(forwarded@).take(i + 1));
        }
        subscribe.push(copy);
        i += 1;
    }
    assert(texts(forwarded@).take(i as int) =~= texts(forwarded@));
    let unknown = without(allowlist, forwarded.as_slice());
    let flush = without(subscribe.as_slice(), forwarded.as_slice());
    let plan = TablePlan { subscribe, forwarded, excluded, unknown, flush };
    proof {
        assert forall|name: Seq<char>| #[trigger] names(plan.subscribe@, name) implies is_wanted(
            asked,
            public@,
            name,
        ) by {
            law_a_plan_follows_what_was_asked(asked, public@, allowlist@, event_tables@, Some(plan), name);
        }
    }
    Some(plan)
}

/// No table that is left out is subscribed to, and every other table of the
/// candidates is.
pub proof fn law_plan_leaves_out_only_unwanted_events(
    tables: Seq<Seq<char>>,
    allowed: Seq<Seq<char>>,
    events: Seq<Seq<char>>,
    p: TablePlan,
    t: Seq<char>,
)
    requires
        is_plan(tables, allowed, events, p),
    ensures
        texts(p.subscribe@).contains(t) <==> tables.contains(t) && !texts(p.excluded@).contains(t),
{
    let state = tables.filter(is_not_in(events));
    let forwarded = tables.filter(is_passed_on(allowed, events));
    let held = tables.filter(is_held_off(allowed, events));
    lemma_filtered(tables, is_not_in(events), t);
    lemma_filtered(tables, is_passed_on(allowed, events), t);
    lemma_filtered(tables, is_held_off(allowed, events), t);
    if state.contains(t) {
        let i = choose|i: int| 0 <= i < state.len() && state[i] == t;
        assert((state + forwarded)[i] == t);
    }
    if forwarded.contains(t) {
        let i = choose|i: int| 0 <= i < forwarded.len() && forwarded[i] == t;
        assert((state + forwarded)[state.len() + i] == t);
    }
    if (state + forwarded).contains(t) {
        let i = choose|i: int| 0 <= i < (state + forwarded).len() && (state + forwarded)[i] == t;
        if i < state.len() {
            assert(state[i] == t);
        } else {
            assert(forwarded[i - state.len()] == t);
        }
    }
}

/// What a filtered list has.
proof fn lemma_filtered(s: Seq<Seq<char>>, f: spec_fn(Seq<char>) -> bool, t: Seq<char>)
    ensures
        s.filter(f).contains(t) <==> s.contains(t) && f(t),
{
    if s.contains(t) && f(t) {
        let i = choose|i: int| 0 <= i < s.len() && s[i] == t;
        s.lemma_filter_contains(f, i);
    }
    if s.filter(f).contains(t) {
        let i = choose|i: int| 0 <= i < s.filter(f).len() && s.filter(f)[i] == t;
        s.lemma_filter_pred(f, i);
        lemma_filter_from(s, f, t);
    }
}

proof fn lemma_filter_from(s: Seq<Seq<char>>, f: spec_fn(Seq<char>) -> bool, t: Seq<char>)
    requires
        s.filter(f).contains(t),
    ensures
        s.contains(t),
    decreases s.len(),
{
    reveal(Seq::filter);
    if s.len() > 0 {
        let rest = s.drop_last();
        let k = choose|k: int| 0 <= k < s.filter(f).len() && s.filter(f)[k] == t;
        if f(s.last()) && k == s.filter(f).len() - 1 {
            assert(s[s.len() - 1] == t);
        } else {
            assert(rest.filter(f)[k] == t);
            lemma_filter_from(rest, f, t);
            let j = choose|j: int| 0 <= j < rest.len() && rest[j] == t;
            assert(s[j] == t);
        }
    }
}

/// The numbers of the local tables, by name. A name without a local table is
/// an error.
pub fn resolve_table_ids(names: &[String], found: &[Option<u32>]) -> (r: Result<NameTable<u32>, String>)
    requires
        names@.len() == found@.len(),
    ensures
        match r {
            Ok(ids) => {
                &&& ids.wf()
                &&& forall|i: int| 0 <= i < found@.len() ==> #[trigger] found@[i] is Some
                &&& ids@ == table_numbers(texts(names@), found@, names@.len())
            },
            Err(name) => exists|i: int|
                0 <= i < found@.len() && (#[trigger] found@[i]) is None && name@ == names@[i]@ && forall|k: int|
                    0 <= k < i ==> (#[trigger] found@[k]) is Some,
        },
{
    let mut ids: NameTable<u32> = NameTable::new();
    let mut i: usize = 0;
    while i < names.len()
        invariant
            names@.len() == found@.len(),
            ids.wf(),
            i <= names@.len(),
            forall|k: int| 0 <= k < i ==> (#[trigger] found@[k]) is Some,
            ids@ == table_numbers(texts(names@), found@, i as nat),
        decreases names.len() - i,
    {
        match found[i] {
            Some(id) => {
                let _ = ids.insert(names[i].clone(), id);
            },
            None => {
                return Err(names[i].clone());
            },
        }
        i += 1;
    }
    Ok(ids)
}

/// The numbers of the first `n` tables, by name.
pub open spec fn table_numbers(names: Seq<Seq<char>>, found: Seq<Option<u32>>, n: nat) -> Map<Seq<char>, u32>
    decreases n,
{
    if n == 0 {
        Map::empty()
    } else {
        table_numbers(names, found, (n - 1) as nat).insert(names[n - 1], found[n - 1]->Some_0)
    }
}

/// Rows of a table in an update.
#[derive(Debug)]
pub struct UpstreamTable {
    pub table_name: String,
    pub deletes: Vec<Vec<u8>>,
    pub inserts: Vec<Vec<u8>>,
}

/// An update of the database.
#[derive(Debug)]
pub struct UpstreamUpdate {
    pub provenance: Option<ExternalProvenance>,
    pub tables: Vec<UpstreamTable>,
    /// Whether these are the rows that a subscription starts with.
    pub is_seed: bool,
}

/// Tables that are there locally.
pub open spec fn is_local(ids: Map<Seq<char>, u32>) -> spec_fn(UpstreamTable) -> bool {
    |t: UpstreamTable| ids.dom().contains(t.table_name@)
}

/// Whether changes are those of tables, under their local numbers.
pub open spec fn are_ops(ids: Map<Seq<char>, u32>, tables: Seq<UpstreamTable>, ops: Seq<TableOps>) -> bool {
    &&& ops.len() == tables.len()
    &&& forall|i: int|
        0 <= i < tables.len() ==> (#[trigger] ops[i]).table_id == ids[tables[i].table_name@] && ops[i].deletes
            == tables[i].deletes && ops[i].inserts == tables[i].inserts
}

/// Brings an update under the numbers of the local tables. Tables that are not
/// there are left out; an update without a table is none.
pub fn update_to_mirrored(update: UpstreamUpdate, table_ids: &NameTable<u32>) -> (r: Option<MirroredUpdate>)
    requires
        table_ids.wf(),
    ensures
        ({
            let kept = update.tables@.filter(is_local(table_ids@));
            match r {
                Some(m) => {
                    &&& kept.len() > 0
                    &&& m.provenance == update.provenance
                    &&& m.is_seed == update.is_seed
                    &&& are_ops(table_ids@, kept, m.ops@)
                },
                None => kept.len() == 0,
            }
        }),
{
    let ghost all = update.tables@;
    let ghost f = is_local(table_ids@);
    let mut ops: Vec<TableOps> = Vec::new();
    let provenance = update.provenance;
    let is_seed: bool = update.is_seed;
    let tables = update.tables;
    proof {
        reveal(Seq::filter);
        assert(all.take(0).filter(f) =~= Seq::<UpstreamTable>::empty());
    }
    for t in it: tables
        invariant
            it.seq() == all,
            table_ids.wf(),
            f == is_local(table_ids@),
            are_ops(table_ids@, all.take(it.index() as int).filter(f), ops@),
    {
        let ghost k = it.index() as int;
        let ghost kept = all.take(k).filter(f);
        let ghost whole = t;
        proof {
            reveal(Seq::filter);
            assert(all.take(k + 1).drop_last() =~= all.take(k));
        }
        if let Some(id) = table_ids.get(t.table_name.as_str()) {
            let op = TableOps { table_id: *id, deletes: t.deletes, inserts: t.inserts };
            ops.push(op);
            assert(all.take(k + 1).filter(f) =~= kept.push(whole));
        }
    }
    assert(all.take(all.len() as int) =~= all);
    if ops.len() == 0 {
        None
    } else {
        Some(MirroredUpdate { provenance, ops, is_seed })
    }
}

/// The sessions with a database, one after the other.
#[derive(Debug)]
pub struct MirrorSessions {
    /// Number of the session; the first is 1.
    pub generation: u64,
    /// Seconds before the next try.
    pub backoff_secs: u64,
    /// The tables in the order of the next subscriptions.
    pub table_order: Vec<String>,
}

/// How a session starts.
#[derive(Debug, Clone, Copy, PartialEq, Eq, Structural)]
pub struct SessionStart {
    pub generation: u64,
    /// Whether rows are fetched at a limited pace.
    pub pace_seeds: bool,
}

/// What follows a session.
#[derive(Debug, Clone, Copy, PartialEq, Eq, Structural)]
pub struct SessionEnd {
    /// Seconds before the next try.
    pub sleep_secs: u64,
    /// The number that the next session has.
    pub next_generation: u64,
}

/// Position of the first text of a list, from `i` on.
pub open spec fn text_from(s: Seq<Seq<char>>, t: Seq<char>, i: int) -> Option<int>
    decreases s.len() - i,
{
    if i < 0 || i >= s.len() {
        None
    } else if s[i] == t {
        Some(i)
    } else {
        text_from(s, t, i + 1)
    }
}

/// A list with one of its values moved to the front.
pub open spec fn moved_front<T>(s: Seq<T>, i: int) -> Seq<T> {
    seq![s[i]] + s.remove(i)
}

/// The order of subscriptions after a session that failed at a table.
pub open spec fn reordered(order: Seq<String>, failed: Option<Seq<char>>) -> Seq<String> {
    match failed {
        Some(t) => match text_from(texts(order), t, 0) {
            Some(i) => moved_front(order, i),
            None => order,
        },
        None => order,
    }
}

/// Seconds before the try that follows a session: few after a stable one.
pub open spec fn sleep_after(backoff: u64, lived_ms: u64) -> u64 {
    if lived_ms >= STABLE_THRESHOLD_MS {
        1
    } else {
        backoff
    }
}

/// Twice the seconds, up to a bound.
pub open spec fn doubled(secs: u64) -> u64 {
    if 2 * secs > BACKOFF_MAX_SECS {
        BACKOFF_MAX_SECS
    } else {
        (2 * secs) as u64
    }
}

impl MirrorSessions {
    /// The wait before a try is in range, and there is room for sessions.
    pub open spec fn wf(&self) -> bool {
        1 <= self.backoff_secs <= BACKOFF_MAX_SECS
    }

    /// Before the first session.
    pub fn new(tables: Vec<String>) -> (r: Self)
        ensures
            r.wf(),
            r.generation == 0,
            r.backoff_secs == 1,
            r.table_order == tables,
    {
        MirrorSessions { generation: 0, backoff_secs: 1, table_order: tables }
    }

    /// Starts a session. Rows come at a limited pace after the first session,
    /// and where other databases are being followed already.
    pub fn begin(&mut self, others_live: bool) -> (r: SessionStart)
        requires
            old(self).wf(),
            old(self).generation < u64::MAX,
        ensures
            final(self).wf(),
            final(self).generation == old(self).generation + 1,
            final(self).backoff_secs == old(self).backoff_secs,
            final(self).table_order == old(self).table_order,
            r.generation == final(self).generation,
            r.pace_seeds <==> r.generation > 1 || others_live,
    {
        self.generation = self.generation + 1;
        SessionStart { generation: self.generation, pace_seeds: self.generation > 1 || others_live }
    }

    /// Ends a session that followed the database for some time, or not at all.
    /// The table at which it failed comes first in the next one.
    pub fn end(&mut self, lived_ms: Option<u64>, failed_table: Option<&str>) -> (r: SessionEnd)
        requires
            old(self).wf(),
            old(self).generation < u64::MAX,
        ensures
            final(self).wf(),
            final(self).generation == old(self).generation,
            r.next_generation == old(self).generation + 1,
            ({
                let lived = match lived_ms {
                    Some(ms) => ms,
                    None => 0,
                };
                let failed = match failed_table {
                    Some(t) => Some(t@),
                    None => None,
                };
                &&& r.sleep_secs == sleep_after(old(self).backoff_secs, lived)
                &&& final(self).backoff_secs == doubled(r.sleep_secs)
                &&& final(self).table_order@ == reordered(old(self).table_order@, failed)
            }),
    {
        let lived: u64 = match lived_ms {
            Some(ms) => ms,
            None => 0,
        };
        if lived >= STABLE_THRESHOLD_MS {
            self.backoff_secs = 1;
        }
        let sleep_secs: u64 = self.backoff_secs;
        if let Some(failed) = failed_table {
            self.bring_front(failed);
        }
        self.backoff_secs = if sleep_secs * 2 > BACKOFF_MAX_SECS {
            BACKOFF_MAX_SECS
        } else {
            sleep_secs * 2
        };
        SessionEnd { sleep_secs, next_generation: self.generation + 1 }
    }

    /// Moves a table to the front.
    fn bring_front(&mut self, table: &str)
        ensures
            final(self).generation == old(self).generation,
            final(self).backoff_secs == old(self).backoff_secs,
            final(self).table_order@ == reordered(old(self).table_order@, Some(table@)),
    {
        let ghost order = self.table_order@;
        let mut i: usize = 0;
        while i < self.table_order.len()
            invariant
                *self == *old(self),
                order == self.table_order@,
                i <= order.len(),
                text_from(texts(order), table@, 0) == text_from(texts(order), table@, i as int),
            decreases self.table_order.len() - i,
        {
            assert(texts(order)[i as int] == order[i as int]@);
            if same_text(self.table_order[i].as_str(), table) {
                let t = self.table_order.remove(i);
                self.table_order.insert(0, t);
                assert(self.table_order@ =~= moved_front(order, i as int));
                return ;
            }
            i += 1;
        }
    }
}

/// Waits double from 1 second up to the bound and stay there.
pub proof fn law_waits_grow_to_a_bound(n: nat)
    ensures
        1 <= nth_wait(n) <= BACKOFF_MAX_SECS,
        nth_wait(n) <= nth_wait(n + 1),
        n >= 5 ==> nth_wait(n) == BACKOFF_MAX_SECS,
    decreases n,
{
    reveal_with_fuel(nth_wait, 7);
    if n > 0 {
        law_waits_grow_to_a_bound((n - 1) as nat);
    }
}

/// The wait after `n` more sessions that were not stable, from the first on.
pub open spec fn nth_wait(n: nat) -> u64
    decreases n,
{
    if n == 0 {
        1
    } else {
        doubled(nth_wait((n - 1) as nat))
    }
}

/// Moving a table to the front neither adds nor loses one.
pub proof fn law_reordering_keeps_tables(order: Seq<String>, failed: Option<Seq<char>>)
    ensures
        reordered(order, failed).to_multiset() == order.to_multiset(),
        failed matches Some(t) ==> texts(order).contains(t) ==> texts(reordered(order, failed))[0] == t,
{
    if let Some(t) = failed {
        lemma_text_from(texts(order), t, 0);
        if let Some(i) = text_from(texts(order), t, 0) {
            let moved = moved_front(order, i);
            broadcast use vstd::seq_lib::group_to_multiset_ensures;
            assert(order =~= order.remove(i).insert(i, order[i]));
            assert(moved =~= order.remove(i).insert(0, order[i]));
            assert(order[i]@ == t);
        }
    }
}

proof fn lemma_text_from(s: Seq<Seq<char>>, t: Seq<char>, i: int)
    requires
        0 <= i,
    ensures
        match text_from(s, t, i) {
            Some(k) => i <= k < s.len() && s[k] == t,
            None => forall|k: int| i <= k < s.len() ==> #[trigger] s[k] != t,
        },
    decreases s.len() - i,
{
    if i < s.len() && s[i] != t {
        lemma_text_from(s, t, i + 1);
    }
}

/// The changes of each table that is there locally are kept under its number,
/// what goes as what goes and what comes as what comes; nothing else is kept.
pub proof fn law_changes_keep_their_table(
    ids: Map<Seq<char>, u32>,
    tables: Seq<UpstreamTable>,
    ops: Seq<TableOps>,
    i: int,
)
    requires
        are_ops(ids, tables.filter(is_local(ids)), ops),
    ensures
        0 <= i < tables.len() && ids.dom().contains(tables[i].table_name@) ==> exists|k: int|
            0 <= k < ops.len() && has_changes_of(ids, tables[i], #[trigger] ops[k]),
        0 <= i < ops.len() ==> exists|k: int|
            0 <= k < tables.len() && ids.dom().contains((#[trigger] tables[k]).table_name@) && has_changes_of(
                ids,
                tables[k],
                ops[i],
            ),
{
    let f = is_local(ids);
    let kept = tables.filter(f);
    if 0 <= i < tables.len() && ids.dom().contains(tables[i].table_name@) {
        tables.lemma_filter_contains(f, i);
        let k = choose|k: int| 0 <= k < kept.len() && kept[k] == tables[i];
        assert(has_changes_of(ids, tables[i], ops[k]));
    }
    if 0 <= i < ops.len() {
        assert(kept.contains(kept[i]));
        tables.lemma_filter_pred(f, i);
        tables.lemma_filter_contains_rev(f, kept[i]);
        let k = choose|k: int| 0 <= k < tables.len() && tables[k] == kept[i];
        assert(has_changes_of(ids, tables[k], ops[i]));
    }
}

/// Whether changes are those of a table, under its local number.
pub open spec fn has_changes_of(ids: Map<Seq<char>, u32>, t: UpstreamTable, o: TableOps) -> bool {
    &&& o.table_id == ids[t.table_name@]
    &&& o.deletes@ == t.deletes@
    &&& o.inserts@ == t.inserts@
}

/// A table has the number that was found for its name.
pub proof fn law_tables_have_the_numbers_found(names: Seq<Seq<char>>, found: Seq<Option<u32>>, i: int)
    requires
        names.len() == found.len(),
        0 <= i < names.len(),
        forall|k: int| i < k < names.len() ==> #[trigger] names[k] != names[i],
        found[i] is Some,
    ensures
        ({
            let ids = table_numbers(names, found, names.len());
            &&& ids.dom().contains(names[i])
            &&& Some(ids[names[i]]) == found[i]
            &&& forall|t: Seq<char>| #[trigger] ids.dom().contains(t) ==> names.contains(t)
        }),
{
    lemma_numbers(names, found, names.len(), i);
    assert forall|t: Seq<char>| #[trigger]
        table_numbers(names, found, names.len()).dom().contains(t) implies names.contains(t) by {
        lemma_numbers_are_named(names, found, names.len(), t);
    }
}

proof fn lemma_numbers(names: Seq<Seq<char>>, found: Seq<Option<u32>>, n: nat, i: int)
    requires
        0 <= i < n <= names.len(),
        forall|k: int| i < k < names.len() ==> #[trigger] names[k] != names[i],
        found[i] is Some,
    ensures
        table_numbers(names, found, n).dom().contains(names[i]),
        Some(table_numbers(names, found, n)[names[i]]) == found[i],
    decreases n,
{
    if i < n - 1 {
        lemma_numbers(names, found, (n - 1) as nat, i);
        assert(names[n - 1] != names[i]);
    }
}

proof fn lemma_numbers_are_named(names: Seq<Seq<char>>, found: Seq<Option<u32>>, n: nat, t: Seq<char>)
    requires
        n <= names.len(),
        table_numbers(names, found, n).dom().contains(t),
    ensures
        names.contains(t),
    decreases n,
{
    if n > 0 {
        if t == names[n - 1] {
            assert(names.contains(names[n - 1]));
        } else {
            lemma_numbers_are_named(names, found, (n - 1) as nat, t);
        }
    }
}

/// After a session of five seconds or more the next one follows in a second; after a
/// shorter one the wait is the one that was due. The wait then doubles, and is
/// never longer than half a minute.
pub proof fn law_waits_are_short_after_stable_sessions(backoff: u64, lived_ms: u64)
    requires
        1 <= backoff <= BACKOFF_MAX_SECS,
    ensures
        lived_ms >= 5000 ==> sleep_after(backoff, lived_ms) == 1,
        lived_ms < 5000 ==> sleep_after(backoff, lived_ms) == backoff,
        doubled(backoff) == (if 2 * backoff <= 30 {
            2 * backoff
        } else {
            30
        }),
{
}

/// A failure to reach the database, or to hear from it in time, is no hint at a
/// new schema; what the database says and what cannot be read is one.
pub proof fn law_the_network_does_not_change_the_schema(
    text: String,
    secs: u64,
    queued: usize,
    max: usize,
)
    ensures
        !hints_at_schema(UpstreamError::Connect(text)),
        !hints_at_schema(UpstreamError::SubscribeTimeout(text, secs)),
        !hints_at_schema(UpstreamError::SubscribeStalled(text, secs)),
        !hints_at_schema(UpstreamError::Backlog { queued, max }),
        !hints_at_schema(UpstreamError::ProbeTimeout(secs)),
        hints_at_schema(UpstreamError::WebSocket(text)),
        hints_at_schema(UpstreamError::Decode(text)),
        hints_at_schema(UpstreamError::Subscription(text)),
        hints_at_schema(UpstreamError::UnknownTable(text)),
        hints_at_schema(UpstreamError::NotProduct(text)),
        hints_at_schema(UpstreamError::Apply(text)),
        hints_at_schema(UpstreamError::Closed(text)),
{
}

} // verus!
