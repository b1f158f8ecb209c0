//! The lines in which rows of a mirror are shown.

use vstd::prelude::*;

use crate::hex_text::{encode, hex_of};
use crate::text::{chars_of, decimal, has_text, lemma_texts_push, push_chars, push_decimal, text_of, texts};

verus! {

/// A row as it can be shown.
#[derive(Debug)]
pub enum RowText {
    /// The row in words.
    Shown(String),
    /// Why the bytes are no row of the table.
    Unreadable(String),
}

/// Rows that came to a table.
#[derive(Debug)]
pub struct ChangedTable {
    pub table_name: String,
    /// Whether the rows of the table are events, which leave nothing behind.
    pub event: bool,
    /// The rows; `None` where the type of the rows is not known.
    pub rows: Option<Vec<RowText>>,
}

impl RowText {
    /// What is shown of a row.
    pub open spec fn text(self) -> Seq<char> {
        match self {
            RowText::Shown(t) => t@,
            RowText::Unreadable(e) => "<decode error: "@ + e@ + ">"@,
        }
    }
}

/// Appends what is shown of a row.
fn push_row(out: &mut String, row: &RowText)
    ensures
        final(out)@ == old(out)@ + row.text(),
{
    match row {
        RowText::Shown(t) => {
            push_chars(out, chars_of(t.as_str()).as_slice());
        },
        RowText::Unreadable(e) => {
            push_chars(out, chars_of("<decode error: ").as_slice());
            push_chars(out, chars_of(e.as_str()).as_slice());
            push_chars(out, chars_of(">").as_slice());
            assert(out@ =~= old(out)@ + row.text());
        },
    }
}

/// The lines of rows, each behind a margin.
pub open spec fn row_lines(margin: Seq<char>, rows: Seq<RowText>) -> Seq<Seq<char>> {
    rows.map_values(|r: RowText| margin + r.text())
}

/// The rows of a table, as far as its type is known.
pub open spec fn known_rows(t: ChangedTable) -> Seq<RowText> {
    match t.rows {
        Some(rows) => rows@,
        None => Seq::empty(),
    }
}

/// The lines of the first `n` tables: each row behind the name of its table.
pub open spec fn update_lines(tables: Seq<ChangedTable>, n: nat) -> Seq<Seq<char>>
    decreases n,
{
    if n == 0 {
        Seq::empty()
    } else {
        let t = tables[n - 1];
        update_lines(tables, (n - 1) as nat) + row_lines(t.table_name@ + " "@, known_rows(t))
    }
}

/// The number of rows of the first `n` tables, events or others.
pub open spec fn row_count(tables: Seq<ChangedTable>, event: bool, n: nat) -> nat
    decreases n,
{
    if n == 0 {
        0
    } else {
        let t = tables[n - 1];
        row_count(tables, event, (n - 1) as nat) + if t.event == event {
            known_rows(t).len()
        } else {
            0
        }
    }
}

proof fn lemma_row_count_grows(tables: Seq<ChangedTable>, event: bool, n: nat, m: nat)
    requires
        n <= m,
    ensures
        row_count(tables, event, n) <= row_count(tables, event, m),
    decreases m,
{
    if n < m {
        lemma_row_count_grows(tables, event, n, (m - 1) as nat);
    }
}

/// Appends the lines of rows.
fn push_lines(out: &mut Vec<String>, margin: &str, rows: &[RowText])
    ensures
        texts(final(out)@) == texts(old(out)@) + row_lines(margin@, rows@),
{
    let ghost before = texts(out@);
    let ghost all = row_lines(margin@, rows@);
    let mut i: usize = 0;
    assert(before + all.take(0) =~= before);
    while i < rows.len()
        invariant
            i <= rows@.len(),
            all == row_lines(margin@, rows@),
            texts(out@) == before + all.take(i as int),
        decreases rows.len() - i,
    {
        let mut line = text_of(chars_of(margin).as_slice());
        push_row(&mut line, &rows[i]);
        proof {
            lemma_texts_push(out@, line);
            assert(line@ == all[i as int]);
            assert(all.take(i + 1) =~= all.take(i as int).push(all[i as int]));
            assert((before + all.take(i as int)).push(all[i as int]) =~= before + all.take(i + 1));
        }
        out.push(line);
        i += 1;
    }
    assert(all.take(i as int) =~= all);
}

/// What is shown of an update.
#[derive(Debug)]
pub struct ShownUpdate {
    pub lines: Vec<String>,
    /// Rows of tables that keep them.
    pub persistent: u64,
    /// Rows of event tables.
    pub event: u64,
}

/// Shows an update. Tables whose type is not known are passed over.
pub fn dump_v2_update(tables: &[ChangedTable]) -> (r: ShownUpdate)
    requires
        row_count(tables@, false, tables@.len()) <= u64::MAX,
        row_count(tables@, true, tables@.len()) <= u64::MAX,
    ensures
        texts(r.lines@) == update_lines(tables@, tables@.len()),
        r.persistent == row_count(tables@, false, tables@.len()),
        r.event == row_count(tables@, true, tables@.len()),
{
    let mut lines: Vec<String> = Vec::new();
    let mut persistent: u64 = 0;
    let mut event: u64 = 0;
    let mut i: usize = 0;
    assert(texts(lines@) =~= Seq::<Seq<char>>::empty());
    while i < tables.len()
        invariant
            i <= tables@.len(),
            row_count(tables@, false, tables@.len()) <= u64::MAX,
            row_count(tables@, true, tables@.len()) <= u64::MAX,
            texts(lines@) == update_lines(tables@, i as nat),
            persistent == row_count(tables@, false, i as nat),
            event == row_count(tables@, true, i as nat),
        decreases tables.len() - i,
    {
        let t = &tables[i];
        let ghost before = texts(lines@);
        proof {
            lemma_row_count_grows(tables@, false, (i + 1) as nat, tables@.len());
            lemma_row_count_grows(tables@, true, (i + 1) as nat, tables@.len());
        }
        if let Some(rows) = &t.rows {
            let n: usize = rows.len();
            if t.event {
                event = event + n as u64;
            } else {
                persistent = persistent + n as u64;
            }
            let mut margin = text_of(chars_of(t.table_name.as_str()).as_slice());
            push_chars(&mut margin, chars_of(" ").as_slice());
            push_lines(&mut lines, margin.as_str(), rows.as_slice());
        } else {
            assert(before + row_lines(t.table_name@ + " "@, Seq::<RowText>::empty()) =~= before);
        }
        i += 1;
    }
    ShownUpdate { lines, persistent, event }
}

/// The line above the rows of a table in an answer: its name and the number
/// of rows.
pub open spec fn answer_head(table: Seq<char>, rows: nat) -> Seq<char> {
    "table "@ + table + " ("@ + decimal(rows) + " rows)"@
}

/// The lines of a table in an answer: its name and number of rows, then the
/// bytes of each row in hexadecimal. The type of the rows is not asked for.
pub open spec fn answer_lines(table: Seq<char>, rows: Seq<Vec<u8>>) -> Seq<Seq<char>> {
    seq![answer_head(table, rows.len())] + rows.map_values(|row: Vec<u8>| "  "@ + hex_of(row@))
}

/// The line above the rows of a table in an answer.
fn head_line(table: &str, rows: usize) -> (r: String)
    ensures
        r@ == answer_head(table@, rows as nat),
{
    let mut head = text_of(chars_of("table ").as_slice());
    push_chars(&mut head, chars_of(table).as_slice());
    push_chars(&mut head, chars_of(" (").as_slice());
    push_decimal(&mut head, rows as u64);
    push_chars(&mut head, chars_of(" rows)").as_slice());
    head
}

/// Shows a table of an answer to a query.
pub fn query_lines(table: &str, rows: &[Vec<u8>]) -> (r: Vec<String>)
    ensures
        texts(r@) == answer_lines(table@, rows@),
{
    let head = head_line(table, rows.len());
    let mut out: Vec<String> = Vec::new();
    let ghost all = answer_lines(table@, rows@);
    proof {
        assert(texts(out@) =~= Seq::<Seq<char>>::empty());
        lemma_texts_push(out@, head);
    }
    out.push(head);
    assert(texts(out@) =~= all.take(1));
    let mut i: usize = 0;
    while i < rows.len()
        invariant
            i <= rows@.len(),
            all == answer_lines(table@, rows@),
            texts(out@) == all.take(i + 1),
        decreases rows.len() - i,
    {
        let mut line = text_of(chars_of("  ").as_slice());
        let digits = encode(rows[i].as_slice());
        push_chars(&mut line, chars_of(digits.as_str()).as_slice());
        proof {
            lemma_texts_push(out@, line);
            assert(line@ =~= all[i + 1]);
            assert(all.take(i + 2) =~= all.take(i + 1).push(all[i + 1]));
        }
        out.push(line);
        i += 1;
    }
    assert(all.take(i + 1) =~= all);
    out
}

/// The first table of a list that is not among the known ones.
pub fn unknown_table(tables: &[String], known: &[String]) -> (r: Option<usize>)
    ensures
        match r {
            Some(i) => {
                &&& i < tables@.len()
                &&& !texts(known@).contains(tables@[i as int]@)
                &&& forall|k: int| 0 <= k < i ==> texts(known@).contains((#[trigger] tables@[k])@)
            },
            None => forall|k: int| 0 <= k < tables@.len() ==> texts(known@).contains((#[trigger] tables@[k])@),
        },
{
    let mut i: usize = 0;
    while i < tables.len()
        invariant
            i <= tables@.len(),
            forall|k: int| 0 <= k < i ==> texts(known@).contains((#[trigger] tables@[k])@),
        decreases tables.len() - i,
    {
        if !has_text(known, tables[i].as_str()) {
            return Some(i);
        }
        i += 1;
    }
    None
}

/// Each row of a table whose type is known is a line of its own, which starts
/// with the name of the table; there are as many lines as rows of either kind.
pub proof fn law_each_row_is_a_line(tables: Seq<ChangedTable>, n: nat, t: int, i: int)
    requires
        n <= tables.len(),
    ensures
        update_lines(tables, n).len() == row_count(tables, true, n) + row_count(tables, false, n),
        0 <= t < n && (tables[t].rows matches Some(rows) && 0 <= i < rows@.len()) ==> update_lines(tables, n).contains(
            tables[t].table_name@ + " "@ + (match tables[t].rows->Some_0@[i] {
                RowText::Shown(text) => text@,
                RowText::Unreadable(e) => "<decode error: "@ + e@ + ">"@,
            }),
        ),
    decreases n,
{
    if n > 0 {
        law_each_row_is_a_line(tables, (n - 1) as nat, t, i);
        let before = update_lines(tables, (n - 1) as nat);
        let last = tables[n - 1];
        let more = row_lines(last.table_name@ + " "@, known_rows(last));
        let all = update_lines(tables, n);
        assert(all == before + more);
        if 0 <= t < n && (tables[t].rows matches Some(rows) && 0 <= i < rows@.len()) {
            let line = tables[t].table_name@ + " "@ + tables[t].rows->Some_0@[i].text();
            if t < n - 1 {
                let k = choose|k: int| 0 <= k < before.len() && before[k] == line;
                assert(all[k] == line);
            } else {
                assert(more[i] == line);
                assert(all[before.len() + i] == line);
            }
        }
    }
}

/// What is shown of an answer is the name of the table with the number of its
/// rows, and under it each row in hexadecimal, in their order.
pub proof fn law_answers_show_their_rows(table: Seq<char>, rows: Seq<Vec<u8>>, i: int)
    ensures
        answer_lines(table, rows).len() == rows.len() + 1,
        answer_lines(table, rows)[0] == "table "@ + table + " ("@ + decimal(rows.len()) + " rows)"@,
        0 <= i < rows.len() ==> answer_lines(table, rows)[i + 1] == "  "@ + hex_of(rows[i]@),
{
}

} // verus!
