//! The order in which the local tables of a database are made.

use vstd::prelude::*;

use crate::sorted::positions;
use crate::stable::{is_stable, lemma_insert};
use crate::text::{chars_of, texts};
use crate::text_order::{by_text, law_texts_are_ordered, text_le, text_not_after};

verus! {

/// A table or a view to make, by its position in its list.
#[derive(Debug, Clone, Copy, PartialEq, Eq, Structural)]
pub enum CreateStep {
    Table(usize),
    View(usize),
}

/// Whether steps make all tables by name, then all views by name.
pub open spec fn is_creation(tables: Seq<Seq<char>>, views: Seq<Seq<char>>, steps: Seq<CreateStep>) -> bool {
    exists|p: Seq<usize>, q: Seq<usize>| #[trigger]
        in_turn(p, q) == steps && is_stable(tables, by_text(), positions(p)) && is_stable(views, by_text(), positions(q))
}

/// Tables at positions, then views at positions.
pub open spec fn in_turn(p: Seq<usize>, q: Seq<usize>) -> Seq<CreateStep> {
    p.map_values(|i: usize| CreateStep::Table(i)) + q.map_values(|i: usize| CreateStep::View(i))
}

/// The positions of names in the order of the names.
fn by_name(names: &[String]) -> (r: Vec<usize>)
    ensures
        is_stable(texts(names@), by_text(), positions(r@)),
{
    let mut out: Vec<usize> = Vec::new();
    let mut i: usize = 0;
    while i < names.len()
        invariant
            i <= names@.len(),
            out@.len() == i,
            is_stable(texts(names@.take(i as int)), by_text(), positions(out@)),
        decreases names.len() - i,
    {
        let ghost keys = texts(names@.take(i as int));
        let ghost p = positions(out@);
        let name = chars_of(names[i].as_str());
        let mut k: usize = 0;
        while k < out.len()
            invariant
                i < names@.len(),
                k <= out@.len(),
                p == positions(out@),
                keys == texts(names@.take(i as int)),
                is_stable(keys, by_text(), p),
                name@ == names@[i as int]@,
                forall|j: int| 0 <= j < k ==> text_le(keys[#[trigger] p[j]], name@),
            ensures
                k <= out@.len(),
                forall|j: int| 0 <= j < k ==> text_le(keys[#[trigger] p[j]], name@),
                k < out@.len() ==> !text_le(keys[p[k as int]], name@),
            decreases out.len() - k,
        {
            assert(0 <= p[k as int] < keys.len());
            assert(keys[p[k as int]] == names@[out@[k as int] as int]@);
            if !text_not_after(chars_of(names[out[k]].as_str()).as_slice(), name.as_slice()) {
                break;
            }
            k += 1;
        }
        proof {
            law_texts_are_ordered();
            lemma_insert(keys, by_text(), p, name@, k as int);
            assert(texts(names@.take(i + 1)) =~= keys.push(name@));
            assert(positions(out@.insert(k as int, i)) =~= p.insert(k as int, i as int));
        }
        out.insert(k, i);
        i += 1;
    }
    assert(names@.take(i as int) =~= names@);
    out
}

/// The order in which tables and views are made: all tables by name, then all
/// views by name.
pub fn creation_order(tables: &[String], views: &[String]) -> (r: Vec<CreateStep>)
    ensures
        is_creation(texts(tables@), texts(views@), r@),
{
    let p = by_name(tables);
    let q = by_name(views);
    let mut out: Vec<CreateStep> = Vec::new();
    let mut i: usize = 0;
    while i < p.len()
        invariant
            i <= p@.len(),
            out@ == in_turn(p@.take(i as int), Seq::empty()),
        decreases p.len() - i,
    {
        out.push(CreateStep::Table(p[i]));
        i += 1;
        assert(out@ =~= in_turn(p@.take(i as int), Seq::empty()));
    }
    assert(p@.take(i as int) =~= p@);
    assert(out@ =~= in_turn(p@, q@.take(0)));
    i = 0;
    while i < q.len()
        invariant
            i <= q@.len(),
            out@ == in_turn(p@, q@.take(i as int)),
        decreases q.len() - i,
    {
        out.push(CreateStep::View(q[i]));
        i += 1;
        assert(out@ =~= in_turn(p@, q@.take(i as int)));
    }
    assert(q@.take(i as int) =~= q@);
    assert(in_turn(p@, q@) == out@);
    out
}

/// Each table and each view is made, none twice, and all tables before any view;
/// tables are made in the order of their names, and so are views.
pub proof fn law_tables_are_made_before_views(
    tables: Seq<Seq<char>>,
    views: Seq<Seq<char>>,
    steps: Seq<CreateStep>,
    i: int,
    j: int,
)
    requires
        is_creation(tables, views, steps),
        0 <= i < j < steps.len(),
    ensures
        steps.len() == tables.len() + views.len(),
        steps[i] != steps[j],
        match (steps[i], steps[j]) {
            (CreateStep::Table(a), CreateStep::Table(b)) => a < tables.len() && b < tables.len() && text_le(
                tables[a as int],
                tables[b as int],
            ),
            (CreateStep::View(a), CreateStep::View(b)) => a < views.len() && b < views.len() && text_le(
                views[a as int],
                views[b as int],
            ),
            (CreateStep::Table(a), CreateStep::View(b)) => a < tables.len() && b < views.len(),
            (CreateStep::View(_), CreateStep::Table(_)) => false,
        },
{
    let (p, q) = choose|p: Seq<usize>, q: Seq<usize>| #[trigger]
        in_turn(p, q) == steps && is_stable(tables, by_text(), positions(p)) && is_stable(
            views,
            by_text(),
            positions(q),
        );
    let n = p.len();
    assert(positions(p).len() == n && positions(q).len() == q.len());
    if i < n {
        assert(steps[i] == CreateStep::Table(p[i]));
        assert(positions(p)[i] == p[i]);
    } else {
        assert(steps[i] == CreateStep::View(q[i - n]));
        assert(positions(q)[i - n] == q[i - n]);
    }
    if j < n {
        assert(steps[j] == CreateStep::Table(p[j]));
        assert(positions(p)[j] == p[j]);
        assert(by_text()(tables[positions(p)[i]], tables[positions(p)[j]]));
    } else {
        assert(steps[j] == CreateStep::View(q[j - n]));
        assert(positions(q)[j - n] == q[j - n]);
        if i >= n {
            assert(by_text()(views[positions(q)[i - n]], views[positions(q)[j - n]]));
        }
    }
}

} // verus!
