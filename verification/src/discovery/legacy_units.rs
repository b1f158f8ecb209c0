//! Mirrors of single regions, found by the unit files that start them.

use vstd::prelude::*;

use crate::discovery::naming::{has_prefix, has_suffix, source_name_for_database, source_of};
use crate::stable::{at_positions, is_stable, lemma_insert, lemma_insert_value};
use crate::text::{
    after_last, all_digits, capped, chars_of, decimal, ends_with, find, find_from, first_token, is_digit, is_white,
    law_decimal_round_trip, law_patterns_are_replaced_in_turn, lemma_found_at, lines, next_line, occurs_at, parse_u16,
    replace_all, replaced, same_text, starts_with, tail_after, text_of, token, trim_end_of, trimmed_end_of,
    unsigned_number, until_white,
};
use crate::text_order::{by_text, law_texts_are_ordered, text_le, text_not_after};

verus! {

/// A mirror that a unit file starts.
#[derive(Clone, Debug)]
pub struct DiscoveredSource {
    pub name: String,
    pub database: String,
    pub frontend_port: u16,
    pub dashboard_port: u16,
}

/// How the name of a unit becomes the name of a source.
#[derive(Clone, Debug, Default, PartialEq, Eq)]
pub struct NamingSpec {
    /// The name, with `{stem}` where the rest of the unit's name goes.
    pub template: Option<String>,
    /// What is cut off the front of the unit's name.
    pub stem_prefix: Option<String>,
}

/// Where the rest of a unit's name goes in a template.
pub const STEM_MARK: &'static str = "{stem}";

/// What follows a prefix that is not empty; all of a name without it.
pub open spec fn cut(stem: Seq<char>, prefix: Option<Seq<char>>) -> Seq<char> {
    match prefix {
        Some(p) if p.len() > 0 && has_prefix(stem, p) => stem.skip(p.len() as int),
        _ => stem,
    }
}

/// The text of an optional string.
pub open spec fn text_in(s: Option<String>) -> Option<Seq<char>> {
    match s {
        Some(t) => Some(t@),
        None => None,
    }
}

/// How databases of the fleet are named after their units.
pub const FLEET_TEMPLATE: &'static str = "bitcraft-live-{stem}";

/// How units of the fleet begin.
pub const FLEET_STEM_PREFIX: &'static str = "relay-bc";

impl NamingSpec {
    /// The names of the fleet.
    pub fn fleet() -> (r: Self)
        ensures
            r.template matches Some(t) && t@ == FLEET_TEMPLATE@,
            r.stem_prefix matches Some(p) && p@ == FLEET_STEM_PREFIX@,
    {
        NamingSpec {
            template: Some(text_of(chars_of(FLEET_TEMPLATE).as_slice())),
            stem_prefix: Some(text_of(chars_of(FLEET_STEM_PREFIX).as_slice())),
        }
    }

    /// The name of the source of a unit.
    pub open spec fn projected(self, stem: Seq<char>) -> Seq<char> {
        let rest = cut(stem, text_in(self.stem_prefix));
        match self.template {
            Some(t) => replaced(t@, STEM_MARK@, rest),
            None => rest,
        }
    }

    /// The name of the source of a unit.
    pub fn project(&self, stem: &str) -> (r: String)
        ensures
            r@ == self.projected(stem@),
    {
        let chars = chars_of(stem);
        let mut from: usize = 0;
        if let Some(prefix) = &self.stem_prefix {
            let p = chars_of(prefix.as_str());
            if p.len() > 0 && starts_with(chars.as_slice(), p.as_slice()) {
                from = p.len();
            }
        }
        let rest = vstd::slice::slice_subrange(chars.as_slice(), from, chars.len());
        assert(rest@ =~= cut(stem@, text_in(self.stem_prefix)));
        match &self.template {
            Some(t) => {
                let mark = chars_of(STEM_MARK);
                assert(mark@.len() > 0) by {
                    reveal_strlit("{stem}");
                }
                replace_all(chars_of(t.as_str()).as_slice(), mark.as_slice(), rest)
            },
            None => text_of(rest),
        }
    }
}

/// What the names of units of this kind start with.
pub const UNIT_PREFIX: &'static str = "relay-";

/// What the names of unit files end with.
pub const UNIT_SUFFIX: &'static str = ".service";

/// Whether a unit starts with the prefix but is no mirror.
pub open spec fn is_helper_unit(stem: Seq<char>) -> bool {
    ||| stem == "relay-stdb"@
    ||| stem == "relay-coordinator"@
    ||| stem == "relay-fleet-sequencer"@
    ||| stem == "relay-fleet-start"@
    ||| stem == "relay-staleness-monitor"@
    ||| stem == "relay-mirror-health"@
}

/// Whether a unit is a mirror of a region.
pub open spec fn names_mirror(stem: Seq<char>) -> bool {
    has_prefix(stem, UNIT_PREFIX@) && stem.len() > UNIT_PREFIX@.len() && !is_helper_unit(stem)
}

/// Whether a unit is a mirror of a region.
pub fn is_mirror_unit(stem: &str) -> (r: bool)
    ensures
        r <==> names_mirror(stem@),
{
    let chars = chars_of(stem);
    let prefix = chars_of(UNIT_PREFIX);
    if !starts_with(chars.as_slice(), prefix.as_slice()) || chars.len() == prefix.len() {
        return false;
    }
    !(same_text(stem, "relay-stdb") || same_text(stem, "relay-coordinator") || same_text(stem, "relay-fleet-sequencer")
        || same_text(stem, "relay-fleet-start") || same_text(stem, "relay-staleness-monitor") || same_text(
        stem,
        "relay-mirror-health",
    ))
}

/// The unit behind the name of a file, if it is a mirror of a region.
pub open spec fn unit_of(file_name: Seq<char>) -> Option<Seq<char>> {
    if has_suffix(file_name, UNIT_SUFFIX@) {
        let stem = file_name.take(file_name.len() - UNIT_SUFFIX@.len());
        if names_mirror(stem) {
            Some(stem)
        } else {
            None
        }
    } else {
        None
    }
}

/// The unit behind the name of a file, if it is a mirror of a region.
pub fn mirror_unit(file_name: &str) -> (r: Option<String>)
    ensures
        text_in(r) == unit_of(file_name@),
{
    let chars = chars_of(file_name);
    let suffix = chars_of(UNIT_SUFFIX);
    if !ends_with(chars.as_slice(), suffix.as_slice()) {
        return None;
    }
    let rest = vstd::slice::slice_subrange(chars.as_slice(), 0, chars.len() - suffix.len());
    assert(rest@ =~= file_name@.take(file_name@.len() - suffix@.len()));
    let stem = text_of(rest);
    if is_mirror_unit(stem.as_str()) {
        Some(stem)
    } else {
        None
    }
}

/// The word behind the first occurrence of a pattern in a line.
pub open spec fn word_behind(line: Seq<char>, pat: Seq<char>) -> Option<Seq<char>> {
    match find_from(line, pat, 0) {
        Some(i) => Some(first_token(line.skip(i + pat.len()))),
        None => None,
    }
}

/// The port behind a pattern in a line: what follows the last colon of the
/// word.
pub open spec fn port_behind(line: Seq<char>, pat: Seq<char>) -> Option<u16> {
    match word_behind(line, pat) {
        Some(w) => match capped(unsigned_number(after_last(w, ':')), u16::MAX as int) {
            Some(v) => Some(v as u16),
            None => None,
        },
        None => None,
    }
}

/// The value behind a pattern in a line: the word, without the backslashes
/// that continue the line.
pub open spec fn value_behind(line: Seq<char>, pat: Seq<char>) -> Option<Seq<char>> {
    match word_behind(line, pat) {
        Some(w) => if trim_end_of(w, '\\').len() > 0 {
            Some(trim_end_of(w, '\\'))
        } else {
            None
        },
        None => None,
    }
}

/// The port of a flag in the lines from `i` on: in each line the value may
/// follow a blank or an equals sign.
pub open spec fn port_from(all: Seq<Seq<char>>, flag: Seq<char>, i: int) -> Option<u16>
    decreases all.len() - i,
{
    if i < 0 || i >= all.len() {
        None
    } else {
        match (port_behind(all[i], flag.push(' ')), port_behind(all[i], flag.push('='))) {
            (Some(p), _) => Some(p),
            (None, Some(p)) => Some(p),
            (None, None) => port_from(all, flag, i + 1),
        }
    }
}

/// The value of a flag in the lines from `i` on: in each line it may follow a
/// blank or an equals sign.
pub open spec fn value_from(all: Seq<Seq<char>>, flag: Seq<char>, i: int) -> Option<Seq<char>>
    decreases all.len() - i,
{
    if i < 0 || i >= all.len() {
        None
    } else {
        match (value_behind(all[i], flag.push(' ')), value_behind(all[i], flag.push('='))) {
            (Some(v), _) => Some(v),
            (None, Some(v)) => Some(v),
            (None, None) => value_from(all, flag, i + 1),
        }
    }
}

/// The word behind a pattern in a line.
fn find_word<'a>(line: &'a [char], pat: &[char]) -> (r: Option<&'a [char]>)
    ensures
        match r {
            Some(w) => word_behind(line@, pat@) == Some(w@),
            None => word_behind(line@, pat@) is None,
        },
{
    match find(line, pat, 0) {
        Some(i) => {
            let len: usize = line.len();
            let rest = vstd::slice::slice_subrange(line, i + pat.len(), len);
            assert(rest@ =~= line@.skip(i + pat@.len()));
            Some(token(rest))
        },
        None => None,
    }
}

/// A flag with the character behind it.
fn flag_with(flag: &str, c: char) -> (r: Vec<char>)
    ensures
        r@ == flag@.push(c),
{
    let mut chars = chars_of(flag);
    chars.push(c);
    chars
}

/// The lines behind the first one.
proof fn lemma_behind_first(a: Seq<char>, rest: Seq<Seq<char>>, flag: Seq<char>, i: int)
    requires
        0 <= i <= rest.len(),
    ensures
        port_from(seq![a] + rest, flag, i + 1) == port_from(rest, flag, i),
        value_from(seq![a] + rest, flag, i + 1) == value_from(rest, flag, i),
    decreases rest.len() - i,
{
    let all = seq![a] + rest;
    if i < rest.len() {
        assert(all[i + 1] == rest[i]);
        lemma_behind_first(a, rest, flag, i + 1);
    }
}

/// The port of a flag in a text.
pub fn parse_bind_port(body: &str, flag: &str) -> (r: Option<u16>)
    ensures
        r == port_from(lines(body@), flag@, 0),
{
    let chars = chars_of(body);
    let spaced = flag_with(flag, ' ');
    let equals = flag_with(flag, '=');
    let mut rest: &[char] = chars.as_slice();
    while rest.len() > 0
        invariant
            spaced@ == flag@.push(' '),
            equals@ == flag@.push('='),
            port_from(lines(body@), flag@, 0) == port_from(lines(rest@), flag@, 0),
        decreases rest@.len(),
    {
        let (line, behind) = next_line(rest);
        proof {
            lemma_behind_first(line@, lines(behind@), flag@, 0);
            assert(lines(rest@)[0] == line@);
        }
        if let Some(w) = find_word(line, spaced.as_slice()) {
            if let Some(p) = parse_u16(tail_after(w, ':')) {
                return Some(p);
            }
        }
        if let Some(w) = find_word(line, equals.as_slice()) {
            if let Some(p) = parse_u16(tail_after(w, ':')) {
                return Some(p);
            }
        }
        rest = behind;
    }
    None
}

/// The value of a flag in a text.
pub fn parse_flag_value(body: &str, flag: &str) -> (r: Option<String>)
    ensures
        text_in(r) == value_from(lines(body@), flag@, 0),
{
    let chars = chars_of(body);
    let spaced = flag_with(flag, ' ');
    let equals = flag_with(flag, '=');
    let mut rest: &[char] = chars.as_slice();
    while rest.len() > 0
        invariant
            spaced@ == flag@.push(' '),
            equals@ == flag@.push('='),
            value_from(lines(body@), flag@, 0) == value_from(lines(rest@), flag@, 0),
        decreases rest@.len(),
    {
        let (line, behind) = next_line(rest);
        proof {
            lemma_behind_first(line@, lines(behind@), flag@, 0);
            assert(lines(rest@)[0] == line@);
        }
        if let Some(w) = find_word(line, spaced.as_slice()) {
            let v = trimmed_end_of(w, '\\');
            if v.len() > 0 {
                return Some(text_of(v));
            }
        }
        if let Some(w) = find_word(line, equals.as_slice()) {
            let v = trimmed_end_of(w, '\\');
            if v.len() > 0 {
                return Some(text_of(v));
            }
        }
        rest = behind;
    }
    None
}

/// Whether a source is what a unit file starts: both ports and the database of
/// the mirror are there; the name is that of the database that is mirrored,
/// else made from the name of the unit.
pub open spec fn is_source(body: Seq<char>, stem: Seq<char>, naming: NamingSpec, s: DiscoveredSource) -> bool {
    let all = lines(body);
    &&& port_from(all, "--frontend-bind"@, 0) == Some(s.frontend_port)
    &&& port_from(all, "--dashboard-bind"@, 0) == Some(s.dashboard_port)
    &&& value_from(all, "--mirror-database"@, 0) == Some(s.database@)
    &&& s.name@ == match value_from(all, "--database"@, 0) {
        Some(upstream) => source_of(upstream),
        None => naming.projected(stem),
    }
}

/// Whether a unit file has what it takes.
pub open spec fn starts_source(body: Seq<char>) -> bool {
    let all = lines(body);
    &&& port_from(all, "--frontend-bind"@, 0) is Some
    &&& port_from(all, "--dashboard-bind"@, 0) is Some
    &&& value_from(all, "--mirror-database"@, 0) is Some
}

/// The mirror that a unit file starts.
pub fn parse_unit(body: &str, unit_stem: &str, naming: &NamingSpec) -> (r: Option<DiscoveredSource>)
    ensures
        match r {
            Some(s) => starts_source(body@) && is_source(body@, unit_stem@, *naming, s),
            None => !starts_source(body@),
        },
{
    let frontend_port: u16 = match parse_bind_port(body, "--frontend-bind") {
        Some(p) => p,
        None => {
            return None;
        },
    };
    let dashboard_port: u16 = match parse_bind_port(body, "--dashboard-bind") {
        Some(p) => p,
        None => {
            return None;
        },
    };
    let database: String = match parse_flag_value(body, "--mirror-database") {
        Some(d) => d,
        None => {
            return None;
        },
    };
    let name: String = match parse_flag_value(body, "--database") {
        Some(upstream) => source_name_for_database(upstream.as_str()),
        None => naming.project(unit_stem),
    };
    Some(DiscoveredSource { name, database, frontend_port, dashboard_port })
}

/// The names of sources.
pub open spec fn names(s: Seq<DiscoveredSource>) -> Seq<Seq<char>> {
    s.map_values(|d: DiscoveredSource| d.name@)
}

/// Whether sources are others in the order of their names.
pub open spec fn sorted_by_name(found: Seq<DiscoveredSource>, sorted: Seq<DiscoveredSource>) -> bool {
    exists|p: Seq<int>| #[trigger] is_stable(names(found), by_text(), p) && sorted == at_positions(found, p)
}

/// Puts a source behind all whose names do not come after its own.
fn insert_source(out: &mut Vec<DiscoveredSource>, src: DiscoveredSource, Ghost(found): Ghost<Seq<DiscoveredSource>>)
    requires
        sorted_by_name(found, old(out)@),
    ensures
        sorted_by_name(found.push(src), final(out)@),
{
    let name = chars_of(src.name.as_str());
    let ghost p = choose|p: Seq<int>| #[trigger]
        is_stable(names(found), by_text(), p) && out@ == at_positions(found, p);
    let mut k: usize = 0;
    while k < out.len()
        invariant_except_break
            k <= out@.len(),
        invariant
            out@ == at_positions(found, p),
            name@ == src.name@,
            k <= out@.len(),
            forall|j: int| 0 <= j < k ==> text_le((#[trigger] out@[j]).name@, name@),
        ensures
            k < out@.len() ==> !text_le(out@[k as int].name@, name@),
        decreases out.len() - k,
    {
        if !text_not_after(chars_of(out[k].name.as_str()).as_slice(), name.as_slice()) {
            break;
        }
        k += 1;
    }
    proof {
        law_texts_are_ordered();
        let keys = names(found);
        assert forall|j: int| 0 <= j < k implies by_text()(keys[#[trigger] p[j]], name@) by {
            assert(out@[j] == found[p[j]]);
        }
        if k < p.len() {
            assert(out@[k as int] == found[p[k as int]]);
        }
        lemma_insert(keys, by_text(), p, name@, k as int);
        lemma_insert_value(found, p, src, k as int);
        assert(names(found.push(src)) =~= keys.push(name@));
    }
    out.insert(k, src);
    assert(out@ == at_positions(found.push(src), p.insert(k as int, found.len() as int)));
}

/// A unit file: its name, and its text where it could be read.
#[derive(Debug)]
pub struct UnitFile {
    pub file_name: String,
    pub body: Option<String>,
}

/// Whether a unit file starts a mirror.
pub open spec fn gives_source(f: UnitFile) -> bool {
    unit_of(f.file_name@) is Some && f.body is Some && starts_source(f.body->Some_0@)
}

/// Files that start mirrors.
pub open spec fn source_files() -> spec_fn(UnitFile) -> bool {
    |f: UnitFile| gives_source(f)
}

/// Whether sources are what files start, in the order of the files.
pub open spec fn are_sources(files: Seq<UnitFile>, naming: NamingSpec, found: Seq<DiscoveredSource>) -> bool {
    &&& found.len() == files.len()
    &&& forall|i: int|
        0 <= i < files.len() ==> is_source(
            files[i].body->Some_0@,
            unit_of(files[i].file_name@)->Some_0,
            naming,
            #[trigger] found[i],
        )
}

/// Whether sources are what the files of a directory start, by name.
pub open spec fn are_discovered(files: Seq<UnitFile>, naming: NamingSpec, r: Seq<DiscoveredSource>) -> bool {
    exists|found: Seq<DiscoveredSource>| #[trigger]
        are_sources(files.filter(source_files()), naming, found) && sorted_by_name(found, r)
}

/// The mirrors that the files of a directory start, by name. Files that are no
/// units of mirrors, cannot be read or lack something are left out.
pub fn discover(files: &[UnitFile], naming: &NamingSpec) -> (r: Vec<DiscoveredSource>)
    ensures
        are_discovered(files@, *naming, r@),
{
    let mut out: Vec<DiscoveredSource> = Vec::new();
    let ghost mut found: Seq<DiscoveredSource> = Seq::empty();
    let mut i: usize = 0;
    proof {
        reveal(Seq::filter);
        assert(files@.take(0).filter(source_files()) =~= Seq::<UnitFile>::empty());
        let p = Seq::<int>::empty();
        assert(is_stable(names(found), by_text(), p));
        assert(out@ =~= at_positions(found, p));
    }
    while i < files.len()
        invariant
            i <= files@.len(),
            are_sources(files@.take(i as int).filter(source_files()), *naming, found),
            sorted_by_name(found, out@),
        decreases files.len() - i,
    {
        let ghost kept = files@.take(i as int).filter(source_files());
        proof {
            reveal(Seq::filter);
            assert(files@.take(i + 1).drop_last() =~= files@.take(i as int));
        }
        let f = &files[i];
        if let (Some(stem), Some(body)) = (mirror_unit(f.file_name.as_str()), &f.body) {
            if let Some(src) = parse_unit(body.as_str(), stem.as_str(), naming) {
                assert(gives_source(*f));
                assert(files@.take(i + 1).filter(source_files()) =~= kept.push(*f));
                let ghost before = found;
                let ghost new = src;
                insert_source(&mut out, src, Ghost(found));
                proof {
                    found = found.push(new);
                    assert(are_sources(kept.push(*f), *naming, found));
                }
            }
        }
        i += 1;
    }
    assert(files@.take(i as int) =~= files@);
    out
}

/// A file is that of a unit if its name is that of the unit and `.service`. A unit
/// is a mirror of a region if its name starts with `relay-` and goes on, but for
/// those that serve the fleet as a whole.
pub proof fn law_units_are_known_by_name(stem: Seq<char>, rest: Seq<char>)
    ensures
        unit_of(stem + ".service"@) == (if names_mirror(stem) {
            Some(stem)
        } else {
            None
        }),
        names_mirror("relay-bc"@ + rest),
        names_mirror(stem) ==> stem.len() > 6 && stem.take(6) == "relay-"@,
        !names_mirror("relay-stdb"@),
        !names_mirror("relay-coordinator"@),
        !names_mirror("relay-fleet-sequencer"@),
        !names_mirror("relay-fleet-start"@),
        !names_mirror("relay-staleness-monitor"@),
        !names_mirror("relay-mirror-health"@),
{
    reveal_strlit(".service");
    reveal_strlit("relay-");
    reveal_strlit("relay-bc");
    reveal_strlit("relay-stdb");
    reveal_strlit("relay-coordinator");
    reveal_strlit("relay-fleet-sequencer");
    reveal_strlit("relay-fleet-start");
    reveal_strlit("relay-staleness-monitor");
    reveal_strlit("relay-mirror-health");
    let file = stem + ".service"@;
    assert(file.skip(file.len() - 8) =~= ".service"@);
    assert(file.take(file.len() - 8) =~= stem);
    let name = "relay-bc"@ + rest;
    assert(name.take(6) =~= "relay-"@);
    assert(name[6] == 'b');
    assert("relay-stdb"@[6] == 's');
    assert("relay-coordinator"@[6] == 'c');
    assert("relay-fleet-sequencer"@[6] == 'f');
    assert("relay-fleet-start"@[6] == 'f');
    assert("relay-staleness-monitor"@[6] == 's');
    assert("relay-mirror-health"@[6] == 'm');
}

/// Whether a line has a flag first at some place, then a word, then white space or
/// nothing.
pub open spec fn gives_word(line: Seq<char>, flag: Seq<char>, at: int, word: Seq<char>) -> bool {
    let from = at + flag.len();
    let to = from + word.len();
    &&& occurs_at(line, flag, at)
    &&& forall|j: int| 0 <= j < at ==> !#[trigger] occurs_at(line, flag, j)
    &&& to <= line.len()
    &&& line.subrange(from, to) == word
    &&& word.len() > 0
    &&& forall|j: int| 0 <= j < word.len() ==> !is_white(#[trigger] word[j])
    &&& to < line.len() ==> is_white(line[to])
}

/// The value of a flag is the word behind it, and its port the number behind the
/// last colon of that word.
pub proof fn law_flags_give_the_word_behind_them(
    line: Seq<char>,
    flag: Seq<char>,
    at: int,
    word: Seq<char>,
    host: Seq<char>,
    port: u16,
)
    requires
        gives_word(line, flag, at, word),
    ensures
        word.last() != '\\' ==> value_behind(line, flag) == Some(word),
        word == host + seq![':'] + decimal(port as nat) ==> port_behind(line, flag) == Some(port),
{
    lemma_found_at(line, flag, 0, at);
    let rest = line.skip(at + flag.len());
    assert(rest.take(word.len() as int) =~= word);
    assert(rest[0] == word[0]);
    lemma_until_white(rest, word);
    assert(word_behind(line, flag) == Some(word));
    if word == host + seq![':'] + decimal(port as nat) {
        law_decimal_round_trip(port as nat);
        lemma_behind_colon(host, decimal(port as nat));
    }
}

proof fn lemma_until_white(s: Seq<char>, word: Seq<char>)
    requires
        word.len() <= s.len(),
        s.take(word.len() as int) == word,
        forall|j: int| 0 <= j < word.len() ==> !is_white(#[trigger] word[j]),
        word.len() < s.len() ==> is_white(s[word.len() as int]),
    ensures
        until_white(s) == word,
    decreases word.len(),
{
    if word.len() > 0 {
        let (t, w) = (s.skip(1), word.skip(1));
        assert(s[0] == s.take(word.len() as int)[0]);
        assert(!is_white(word[0]));
        assert(t.take(w.len() as int) =~= w) by {
            assert forall|j: int| 0 <= j < w.len() implies t.take(w.len() as int)[j] == w[j] by {
                assert(s.take(word.len() as int)[j + 1] == word[j + 1]);
            }
        }
        assert forall|j: int| 0 <= j < w.len() implies !is_white(#[trigger] w[j]) by {
            assert(w[j] == word[j + 1]);
        }
        lemma_until_white(t, w);
        assert(seq![s[0]] + w =~= word);
    } else {
        assert(until_white(s) =~= word);
    }
}

proof fn lemma_behind_colon(host: Seq<char>, digits: Seq<char>)
    requires
        all_digits(digits),
    ensures
        after_last(host + seq![':'] + digits, ':') == digits,
    decreases digits.len(),
{
    let s = host + seq![':'] + digits;
    if digits.len() > 0 {
        let short = digits.drop_last();
        assert(is_digit(digits[digits.len() - 1]));
        assert(s.last() == digits.last());
        assert(s.drop_last() =~= host + seq![':'] + short);
        assert(all_digits(short)) by {
            assert forall|i: int| 0 <= i < short.len() implies is_digit(#[trigger] short[i]) by {
                assert(short[i] == digits[i]);
            }
        }
        lemma_behind_colon(host, short);
        assert(short.push(digits.last()) =~= digits);
    } else {
        assert(s.last() == ':');
        assert(after_last(s, ':') =~= digits);
    }
}

/// Each file of a unit that has what it takes gives a source, no other file does,
/// and the sources are in the order of their names.
pub proof fn law_each_unit_file_is_found(
    files: Seq<UnitFile>,
    naming: NamingSpec,
    r: Seq<DiscoveredSource>,
    i: int,
    j: int,
)
    requires
        are_discovered(files, naming, r),
    ensures
        0 <= i < files.len() && gives_source(files[i]) ==> exists|k: int|
            0 <= k < r.len() && is_source(
                files[i].body->Some_0@,
                unit_of(files[i].file_name@)->Some_0,
                naming,
                #[trigger] r[k],
            ),
        0 <= i < r.len() ==> exists|k: int|
            0 <= k < files.len() && gives_source(#[trigger] files[k]) && is_source(
                files[k].body->Some_0@,
                unit_of(files[k].file_name@)->Some_0,
                naming,
                r[i],
            ),
        0 <= i < j < r.len() ==> text_le(r[i].name@, r[j].name@),
{
    let kept = files.filter(source_files());
    let found = choose|found: Seq<DiscoveredSource>| #[trigger]
        are_sources(kept, naming, found) && sorted_by_name(found, r);
    let p = choose|p: Seq<int>| #[trigger]
        is_stable(names(found), by_text(), p) && r == at_positions(found, p);
    if 0 <= i < files.len() && gives_source(files[i]) {
        assert(source_files()(files[i]));
        files.lemma_filter_contains(source_files(), i);
        let u = choose|u: int| 0 <= u < kept.len() && kept[u] == files[i];
        assert(is_source(kept[u].body->Some_0@, unit_of(kept[u].file_name@)->Some_0, naming, found[u]));
        let k = lemma_stands_somewhere(names(found), p, u);
        assert(r[k] == found[u]);
    }
    if 0 <= i < r.len() {
        let u = p[i];
        assert(r[i] == found[u]);
        assert(is_source(kept[u].body->Some_0@, unit_of(kept[u].file_name@)->Some_0, naming, found[u]));
        assert(kept.contains(kept[u]));
        files.lemma_filter_pred(source_files(), u);
        files.lemma_filter_contains_rev(source_files(), kept[u]);
        let k = choose|k: int| 0 <= k < files.len() && files[k] == kept[u];
        assert(gives_source(files[k]));
    }
    if 0 <= i < j < r.len() {
        assert(r[i] == found[p[i]] && r[j] == found[p[j]]);
        assert(by_text()(names(found)[p[i]], names(found)[p[j]]));
    }
}

/// Every position stands somewhere in a stable order.
proof fn lemma_stands_somewhere(keys: Seq<Seq<char>>, p: Seq<int>, k: int) -> (q: int)
    requires
        is_stable(keys, by_text(), p),
        0 <= k < keys.len(),
    ensures
        0 <= q < p.len(),
        p[q] == k,
{
    let all = vstd::set_lib::set_int_range(0, keys.len() as int);
    vstd::set_lib::lemma_int_range(0, keys.len() as int);
    p.unique_seq_to_set();
    vstd::seq_lib::seq_to_set_is_finite(p);
    assert(p.to_set().subset_of(all)) by {
        assert forall|i: int| p.to_set().contains(i) implies all.contains(i) by {
            let j = choose|j: int| 0 <= j < p.len() && p[j] == i;
            assert(0 <= p[j] < keys.len());
        }
    }
    vstd::set_lib::lemma_subset_equality(p.to_set(), all);
    assert(p.to_set().contains(k));
    choose|j: int| 0 <= j < p.len() && p[j] == k
}

/// The source of a unit of the fleet is the region that follows `relay-bc` in the
/// name of the unit, behind `bitcraft-live-`.
pub proof fn law_fleet_units_are_named_after_their_region(naming: NamingSpec, rest: Seq<char>)
    requires
        naming.template matches Some(t) && t@ == "bitcraft-live-{stem}"@,
        naming.stem_prefix matches Some(p) && p@ == "relay-bc"@,
    ensures
        naming.projected("relay-bc"@ + rest) == "bitcraft-live-"@ + rest,
{
    reveal_strlit("bitcraft-live-{stem}");
    reveal_strlit("bitcraft-live-");
    reveal_strlit("{stem}");
    reveal_strlit("relay-bc");
    let (a, pat, none) = ("bitcraft-live-"@, "{stem}"@, Seq::<char>::empty());
    let stem = "relay-bc"@ + rest;
    assert(stem.take(8) =~= "relay-bc"@);
    assert(stem.skip(8) =~= rest);
    assert("bitcraft-live-{stem}"@ =~= a + pat + none);
    assert forall|i: int| 0 <= i < a.len() implies !#[trigger] occurs_at(a + pat + none, pat, i) by {
        if occurs_at(a + pat + none, pat, i) {
            assert((a + pat + none).subrange(i, i + 6)[0] == '{');
            assert(a[i] != '{');
        }
    }
    law_patterns_are_replaced_in_turn(a, none, pat, rest);
    assert forall|i: int| !#[trigger] occurs_at(none, pat, i) by {}
    assert(a + rest + none =~= a + rest);
}

/// The port and the value of a flag are those of the first line that gives them.
pub proof fn law_the_first_line_with_a_flag_counts(all: Seq<Seq<char>>, flag: Seq<char>, k: int)
    requires
        0 <= k < all.len(),
    ensures
        (forall|j: int|
            0 <= j < k ==> port_behind(#[trigger] all[j], flag.push(' ')) is None && port_behind(all[j], flag.push('='))
                is None) ==> {
            &&& port_behind(all[k], flag.push(' ')) is Some ==> port_from(all, flag, 0) == port_behind(
                all[k],
                flag.push(' '),
            )
            &&& port_behind(all[k], flag.push(' ')) is None && port_behind(all[k], flag.push('=')) is Some
                ==> port_from(all, flag, 0) == port_behind(all[k], flag.push('='))
        },
        (forall|j: int|
            0 <= j < k ==> value_behind(#[trigger] all[j], flag.push(' ')) is None && value_behind(
                all[j],
                flag.push('='),
            ) is None) ==> {
            &&& value_behind(all[k], flag.push(' ')) is Some ==> value_from(all, flag, 0) == value_behind(
                all[k],
                flag.push(' '),
            )
            &&& value_behind(all[k], flag.push(' ')) is None && value_behind(all[k], flag.push('=')) is Some
                ==> value_from(all, flag, 0) == value_behind(all[k], flag.push('='))
        },
{
    lemma_lines_are_passed_over(all, flag, 0, k);
}

proof fn lemma_lines_are_passed_over(all: Seq<Seq<char>>, flag: Seq<char>, i: int, k: int)
    requires
        0 <= i <= k < all.len(),
    ensures
        (forall|j: int|
            i <= j < k ==> port_behind(#[trigger] all[j], flag.push(' ')) is None && port_behind(all[j], flag.push('='))
                is None) ==> port_from(all, flag, i) == port_from(all, flag, k),
        (forall|j: int|
            i <= j < k ==> value_behind(#[trigger] all[j], flag.push(' ')) is None && value_behind(
                all[j],
                flag.push('='),
            ) is None) ==> value_from(all, flag, i) == value_from(all, flag, k),
    decreases k - i,
{
    if i < k {
        lemma_lines_are_passed_over(all, flag, i + 1, k);
        let line = all[i];
    }
}

} // verus!
