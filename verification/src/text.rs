//! Text helpers: prefixes, decimal numbers, lines and tokens.

use vstd::prelude::*;
use vstd::string::*;

verus! {

/// The characters of a text.
pub fn chars_of(s: &str) -> (r: Vec<char>)
    ensures
        r@ == s@,
{
    let mut out: Vec<char> = Vec::new();
    for c in it: s.chars()
        invariant
            it.seq() == s@,
            out@ == s@.take(it.index() as int),
    {
        out.push(c);
        assert(s@.take(it.index() + 1) =~= s@.take(it.index() as int).push(c));
    }
    assert(s@.take(s@.len() as int) =~= s@);
    out
}

/// Whether two texts are the same.
pub fn same_text(a: &str, b: &str) -> (r: bool)
    ensures
        r <==> a@ == b@,
{
    a.to_owned() == b.to_owned()
}

/// `String::push`: the text with one more character at its end.
#[verifier::external_body]
fn push_char(out: &mut String, c: char)
    ensures
        final(out)@ == old(out)@.push(c),
{
    out.push(c);
}

/// The text with the given characters.
pub fn text_of(chars: &[char]) -> (r: String)
    ensures
        r@ == chars@,
{
    let mut out = String::new();
    push_chars(&mut out, chars);
    assert(Seq::<char>::empty() + chars@ =~= chars@);
    out
}

/// Appends characters to a text.
pub fn push_chars(out: &mut String, chars: &[char])
    ensures
        final(out)@ == old(out)@ + chars@,
{
    let mut i: usize = 0;
    assert(out@ + chars@.take(0) =~= out@);
    while i < chars.len()
        invariant
            i <= chars@.len(),
            out@ == old(out)@ + chars@.take(i as int),
        decreases chars.len() - i,
    {
        push_char(out, chars[i]);
        assert(old(out)@ + chars@.take(i + 1) =~= (old(out)@ + chars@.take(i as int)).push(chars@[i as int]));
        i += 1;
    }
    assert(chars@.take(i as int) =~= chars@);
}

/// Whether a run of characters starts with another.
pub fn starts_with(s: &[char], prefix: &[char]) -> (r: bool)
    ensures
        r <==> prefix@.is_prefix_of(s@),
{
    if prefix.len() > s.len() {
        return false;
    }
    occurs_here(s, 0, prefix)
}

/// Whether a run of characters ends with another.
pub fn ends_with(s: &[char], suffix: &[char]) -> (r: bool)
    ensures
        r <==> suffix@.is_suffix_of(s@),
{
    if suffix.len() > s.len() {
        return false;
    }
    occurs_here(s, s.len() - suffix.len(), suffix)
}

/// Whether a pattern stands at a position.
pub open spec fn occurs_at(s: Seq<char>, pat: Seq<char>, i: int) -> bool {
    0 <= i && i + pat.len() <= s.len() && s.subrange(i, i + pat.len()) == pat
}

/// Whether a pattern stands at a position.
fn occurs_here(s: &[char], at: usize, pat: &[char]) -> (r: bool)
    requires
        at + pat@.len() <= s@.len(),
    ensures
        r <==> s@.subrange(at as int, at + pat@.len()) == pat@,
{
    let len: usize = s.len();
    let mut i: usize = 0;
    while i < pat.len()
        invariant
            i <= pat@.len(),
            at + pat@.len() <= s@.len() == len,
            forall|j: int| 0 <= j < i ==> s@[at + j] == pat@[j],
        decreases pat.len() - i,
    {
        if s[at + i] != pat[i] {
            assert(s@.subrange(at as int, at + pat@.len())[i as int] != pat@[i as int]);
            return false;
        }
        i += 1;
    }
    assert(s@.subrange(at as int, at + pat@.len()) =~= pat@);
    true
}

/// First position from `i` on at which a pattern stands.
pub open spec fn find_from(s: Seq<char>, pat: Seq<char>, i: int) -> Option<int>
    decreases s.len() - i + 1,
{
    if i < 0 || i + pat.len() > s.len() {
        None
    } else if occurs_at(s, pat, i) {
        Some(i)
    } else {
        find_from(s, pat, i + 1)
    }
}

/// First position from `from` on at which a pattern stands.
pub fn find(s: &[char], pat: &[char], from: usize) -> (r: Option<usize>)
    ensures
        match r {
            Some(i) => find_from(s@, pat@, from as int) == Some(i as int) && i + pat@.len() <= s@.len() && from <= i,
            None => find_from(s@, pat@, from as int) is None,
        },
{
    let len: usize = s.len();
    if pat.len() > len {
        return None;
    }
    let mut i: usize = from;
    while i <= len - pat.len()
        invariant
            len == s@.len(),
            pat@.len() <= len,
            from <= i,
            find_from(s@, pat@, from as int) == find_from(s@, pat@, i as int),
        decreases len + 1 - i,
    {
        if occurs_here(s, i, pat) {
            return Some(i);
        }
        proof {
            if pat@.len() == 0 {
                assert(s@.subrange(i as int, i as int) =~= pat@);
            }
        }
        i += 1;
    }
    None
}

/// Whether a character has the Unicode property White_Space.
pub open spec fn is_white(c: char) -> bool {
    let n = c as int;
    ||| 0x09 <= n <= 0x0d
    ||| n == 0x20
    ||| n == 0x85
    ||| n == 0xa0
    ||| n == 0x1680
    ||| 0x2000 <= n <= 0x200a
    ||| n == 0x2028
    ||| n == 0x2029
    ||| n == 0x202f
    ||| n == 0x205f
    ||| n == 0x3000
}

/// Whether a character has the Unicode property White_Space.
fn char_is_white(c: char) -> (r: bool)
    ensures
        r <==> is_white(c),
{
    let n: u32 = c as u32;
    (0x09 <= n && n <= 0x0d) || n == 0x20 || n == 0x85 || n == 0xa0 || n == 0x1680 || (0x2000 <= n && n <= 0x200a) || n
        == 0x2028 || n == 0x2029 || n == 0x202f || n == 0x205f || n == 0x3000
}

/// A run of characters without white space at its start.
pub open spec fn trim_start(s: Seq<char>) -> Seq<char>
    decreases s.len(),
{
    if s.len() > 0 && is_white(s[0]) {
        trim_start(s.skip(1))
    } else {
        s
    }
}

/// A run of characters without white space at its end.
pub open spec fn trim_end(s: Seq<char>) -> Seq<char>
    decreases s.len(),
{
    if s.len() > 0 && is_white(s.last()) {
        trim_end(s.drop_last())
    } else {
        s
    }
}

/// A run of characters without white space at its ends.
pub open spec fn trim(s: Seq<char>) -> Seq<char> {
    trim_end(trim_start(s))
}

/// The characters up to the first white space.
pub open spec fn until_white(s: Seq<char>) -> Seq<char>
    decreases s.len(),
{
    if s.len() == 0 || is_white(s[0]) {
        Seq::empty()
    } else {
        seq![s[0]] + until_white(s.skip(1))
    }
}

/// The first token between white space. Without a token, the run itself.
pub open spec fn first_token(s: Seq<char>) -> Seq<char> {
    if trim_start(s).len() == 0 {
        s
    } else {
        until_white(trim_start(s))
    }
}

/// Without white space at the start.
fn skip_white(s: &[char]) -> (r: &[char])
    ensures
        r@ == trim_start(s@),
{
    let len: usize = s.len();
    let mut i: usize = 0;
    assert(s@.skip(0) =~= s@);
    while i < len && char_is_white(s[i])
        invariant
            i <= len == s@.len(),
            trim_start(s@) == trim_start(s@.skip(i as int)),
        decreases len - i,
    {
        assert(s@.skip(i as int).skip(1) =~= s@.skip(i + 1));
        i += 1;
    }
    assert(s@.subrange(i as int, len as int) =~= s@.skip(i as int));
    vstd::slice::slice_subrange(s, i, len)
}

/// Without white space at the ends.
pub fn trimmed(s: &[char]) -> (r: &[char])
    ensures
        r@ == trim(s@),
{
    let t = skip_white(s);
    let mut n: usize = t.len();
    assert(t@.take(n as int) =~= t@);
    while n > 0 && char_is_white(t[n - 1])
        invariant
            n <= t@.len(),
            trim_end(t@) == trim_end(t@.take(n as int)),
        decreases n,
    {
        assert(t@.take(n as int).drop_last() =~= t@.take(n - 1));
        n -= 1;
    }
    assert(t@.subrange(0, n as int) =~= t@.take(n as int));
    vstd::slice::slice_subrange(t, 0, n)
}

/// The first token between white space; without a token, the run itself.
pub fn token(s: &[char]) -> (r: &[char])
    ensures
        r@ == first_token(s@),
{
    let t = skip_white(s);
    if t.len() == 0 {
        return s;
    }
    let len: usize = t.len();
    let mut i: usize = 0;
    assert(t@.take(0) + until_white(t@.skip(0)) =~= until_white(t@)) by {
        assert(t@.skip(0) =~= t@);
    }
    while i < len && !char_is_white(t[i])
        invariant
            i <= len == t@.len(),
            until_white(t@) == t@.take(i as int) + until_white(t@.skip(i as int)),
        decreases len - i,
    {
        proof {
            assert(t@.skip(i as int).skip(1) =~= t@.skip(i + 1));
            assert(t@.take(i + 1) =~= t@.take(i as int) + seq![t@[i as int]]);
            assert(t@.take(i as int) + (seq![t@[i as int]] + until_white(t@.skip(i + 1))) =~= t@.take(i + 1)
                + until_white(t@.skip(i + 1)));
        }
        i += 1;
    }
    assert(t@.take(i as int) + Seq::<char>::empty() =~= t@.take(i as int));
    assert(t@.subrange(0, i as int) =~= t@.take(i as int));
    vstd::slice::slice_subrange(t, 0, i)
}

/// What follows the last `c`; all of it where there is none.
pub open spec fn after_last(s: Seq<char>, c: char) -> Seq<char>
    decreases s.len(),
{
    if s.len() == 0 || s.last() == c {
        Seq::empty()
    } else {
        after_last(s.drop_last(), c).push(s.last())
    }
}

/// What follows the last `c`; all of it where there is none.
pub fn tail_after(s: &[char], c: char) -> (r: &[char])
    ensures
        r@ == after_last(s@, c),
{
    let len: usize = s.len();
    let mut n: usize = len;
    assert(s@.take(n as int) =~= s@);
    assert(after_last(s@, c) =~= after_last(s@.take(n as int), c) + s@.skip(n as int));
    while n > 0 && s[n - 1] != c
        invariant
            n <= len == s@.len(),
            after_last(s@, c) == after_last(s@.take(n as int), c) + s@.skip(n as int),
        decreases n,
    {
        proof {
            let t = s@.take(n as int);
            assert(t.drop_last() =~= s@.take(n - 1));
            assert(after_last(t, c) == after_last(t.drop_last(), c).push(t.last()));
            assert(after_last(s@.take(n - 1), c).push(s@[n - 1]) + s@.skip(n as int) =~= after_last(s@.take(n - 1), c)
                + s@.skip(n - 1));
        }
        n -= 1;
    }
    assert(after_last(s@.take(n as int), c) =~= Seq::<char>::empty());
    assert(s@.subrange(n as int, len as int) =~= s@.skip(n as int));
    assert(Seq::<char>::empty() + s@.skip(n as int) =~= s@.skip(n as int));
    vstd::slice::slice_subrange(s, n, len)
}

/// Without the `c` at the end.
pub open spec fn trim_end_of(s: Seq<char>, c: char) -> Seq<char>
    decreases s.len(),
{
    if s.len() > 0 && s.last() == c {
        trim_end_of(s.drop_last(), c)
    } else {
        s
    }
}

/// Without the `c` at the end.
pub fn trimmed_end_of(s: &[char], c: char) -> (r: &[char])
    ensures
        r@ == trim_end_of(s@, c),
{
    let mut n: usize = s.len();
    assert(s@.take(n as int) =~= s@);
    while n > 0 && s[n - 1] == c
        invariant
            n <= s@.len(),
            trim_end_of(s@, c) == trim_end_of(s@.take(n as int), c),
        decreases n,
    {
        assert(s@.take(n as int).drop_last() =~= s@.take(n - 1));
        n -= 1;
    }
    assert(s@.subrange(0, n as int) =~= s@.take(n as int));
    vstd::slice::slice_subrange(s, 0, n)
}

/// A decimal digit.
pub open spec fn is_digit(c: char) -> bool {
    '0' <= c <= '9'
}

/// Whether all characters are decimal digits.
pub open spec fn all_digits(s: Seq<char>) -> bool {
    forall|i: int| 0 <= i < s.len() ==> is_digit(#[trigger] s[i])
}

/// The number that decimal digits spell.
pub open spec fn digits_value(s: Seq<char>) -> nat
    decreases s.len(),
{
    if s.len() == 0 {
        0
    } else {
        digits_value(s.drop_last()) * 10 + (s.last() as int - '0' as int) as nat
    }
}

/// The number that a text spells: decimal digits after an optional plus sign.
pub open spec fn unsigned_number(s: Seq<char>) -> Option<nat> {
    let d = if s.len() > 0 && s[0] == '+' {
        s.skip(1)
    } else {
        s
    };
    if d.len() > 0 && all_digits(d) {
        Some(digits_value(d))
    } else {
        None
    }
}

/// The number that a text spells: decimal digits after an optional sign.
pub open spec fn signed_number(s: Seq<char>) -> Option<int> {
    if s.len() > 0 && s[0] == '-' {
        let d = s.skip(1);
        if d.len() > 0 && all_digits(d) {
            Some(-(digits_value(d) as int))
        } else {
            None
        }
    } else {
        match unsigned_number(s) {
            Some(v) => Some(v as int),
            None => None,
        }
    }
}

/// A number that is at most `max`.
pub open spec fn capped(n: Option<nat>, max: int) -> Option<nat> {
    match n {
        Some(v) if v <= max => Some(v),
        _ => None,
    }
}

/// More digits spell no smaller number.
proof fn lemma_digits_grow(s: Seq<char>, i: int)
    requires
        0 <= i <= s.len(),
    ensures
        digits_value(s.take(i)) <= digits_value(s),
    decreases s.len() - i,
{
    if i == s.len() {
        assert(s.take(i) =~= s);
    } else {
        lemma_digits_grow(s, i + 1);
        assert(s.take(i + 1).drop_last() =~= s.take(i));
    }
}

/// The number that decimal digits spell, if it is at most `max`.
fn parse_digits(s: &[char], max: u64) -> (r: Option<u64>)
    ensures
        match r {
            Some(v) => s@.len() > 0 && all_digits(s@) && v == digits_value(s@) && v <= max,
            None => s@.len() == 0 || !all_digits(s@) || digits_value(s@) > max,
        },
{
    if s.len() == 0 {
        return None;
    }
    let mut v: u64 = 0;
    let mut i: usize = 0;
    while i < s.len()
        invariant
            i <= s@.len(),
            v <= max,
            v == digits_value(s@.take(i as int)),
            forall|j: int| 0 <= j < i ==> is_digit(#[trigger] s@[j]),
        decreases s.len() - i,
    {
        let c: char = s[i];
        if c < '0' || c > '9' {
            assert(!is_digit(s@[i as int]));
            return None;
        }
        let d: u64 = (c as u32 - '0' as u32) as u64;
        let next: u128 = v as u128 * 10 + d as u128;
        proof {
            assert(s@.take(i + 1).drop_last() =~= s@.take(i as int));
            assert(next == digits_value(s@.take(i + 1)));
            lemma_digits_grow(s@, i + 1);
        }
        if next > max as u128 {
            return None;
        }
        v = next as u64;
        i += 1;
    }
    assert(s@.take(i as int) =~= s@);
    Some(v)
}

/// The number that a text spells, if it is at most `max`.
pub fn parse_unsigned(s: &[char], max: u64) -> (r: Option<u64>)
    ensures
        match r {
            Some(v) => capped(unsigned_number(s@), max as int) == Some(v as nat),
            None => capped(unsigned_number(s@), max as int) is None,
        },
{
    if s.len() > 0 && s[0] == '+' {
        assert(s@.subrange(1, s@.len() as int) =~= s@.skip(1));
        parse_digits(vstd::slice::slice_subrange(s, 1, s.len()), max)
    } else {
        parse_digits(s, max)
    }
}

/// The 16-bit number that a text spells.
pub fn parse_u16(s: &[char]) -> (r: Option<u16>)
    ensures
        match r {
            Some(v) => capped(unsigned_number(s@), u16::MAX as int) == Some(v as nat),
            None => capped(unsigned_number(s@), u16::MAX as int) is None,
        },
{
    match parse_unsigned(s, u16::MAX as u64) {
        Some(v) => Some(v as u16),
        None => None,
    }
}

/// The 32-bit number that a text spells.
pub fn parse_u32(s: &[char]) -> (r: Option<u32>)
    ensures
        match r {
            Some(v) => capped(unsigned_number(s@), u32::MAX as int) == Some(v as nat),
            None => capped(unsigned_number(s@), u32::MAX as int) is None,
        },
{
    match parse_unsigned(s, u32::MAX as u64) {
        Some(v) => Some(v as u32),
        None => None,
    }
}

/// The 64-bit number that a text spells.
pub fn parse_u64(s: &[char]) -> (r: Option<u64>)
    ensures
        match r {
            Some(v) => capped(unsigned_number(s@), u64::MAX as int) == Some(v as nat),
            None => capped(unsigned_number(s@), u64::MAX as int) is None,
        },
{
    parse_unsigned(s, u64::MAX)
}

/// The signed 32-bit number that a text spells.
pub fn parse_i32(s: &[char]) -> (r: Option<i32>)
    ensures
        match r {
            Some(v) => signed_number(s@) == Some(v as int),
            None => match signed_number(s@) {
                Some(v) => v < i32::MIN || v > i32::MAX,
                None => true,
            },
        },
{
    if s.len() > 0 && s[0] == '-' {
        assert(s@.subrange(1, s@.len() as int) =~= s@.skip(1));
        match parse_digits(vstd::slice::slice_subrange(s, 1, s.len()), 0x8000_0000) {
            Some(v) => Some((-(v as i64)) as i32),
            None => None,
        }
    } else {
        match parse_unsigned(s, 0x7fff_ffff) {
            Some(v) => Some(v as i32),
            None => None,
        }
    }
}

/// Decimal digit of a number below ten.
pub open spec fn digit(n: nat) -> char {
    (n + '0' as nat) as char
}

/// A number in decimal digits.
pub open spec fn decimal(n: nat) -> Seq<char>
    decreases n,
{
    if n < 10 {
        seq![digit(n)]
    } else {
        decimal(n / 10).push(digit(n % 10))
    }
}

/// Appends a number in decimal digits.
pub fn push_decimal(out: &mut String, n: u64)
    ensures
        final(out)@ == old(out)@ + decimal(n as nat),
    decreases n,
{
    if n >= 10 {
        push_decimal(out, n / 10);
    }
    let c: char = (48u8 + (n % 10) as u8) as char;
    push_char(out, c);
    proof {
        assert(c == digit((n % 10) as nat));
        if n < 10 {
            assert(old(out)@.push(c) =~= old(out)@ + decimal(n as nat));
        } else {
            assert((old(out)@ + decimal((n / 10) as nat)).push(c) =~= old(out)@ + decimal(n as nat));
        }
    }
}

/// Reading a number back from its decimal digits gives the number.
pub proof fn law_decimal_round_trip(n: nat)
    ensures
        decimal(n).len() > 0,
        all_digits(decimal(n)),
        digits_value(decimal(n)) == n,
        unsigned_number(decimal(n)) == Some(n),
    decreases n,
{
    if n >= 10 {
        law_decimal_round_trip(n / 10);
        assert(decimal(n).drop_last() =~= decimal(n / 10));
        assert(decimal(n).last() == digit(n % 10));
    } else {
        assert(decimal(n).drop_last() =~= Seq::<char>::empty());
        assert(digits_value(decimal(n).drop_last()) == 0);
        assert(decimal(n).last() == digit(n));
    }
    assert(is_digit(decimal(n)[0]));
}

/// A line without the carriage return that ends it.
pub open spec fn strip_cr(s: Seq<char>) -> Seq<char> {
    if s.len() > 0 && s.last() == '\r' {
        s.drop_last()
    } else {
        s
    }
}

/// Position of the first line feed; the length where there is none.
pub open spec fn line_end(s: Seq<char>) -> int
    decreases s.len(),
{
    if s.len() == 0 || s[0] == '\n' {
        0
    } else {
        1 + line_end(s.skip(1))
    }
}

/// The lines of a text. A line feed, with a carriage return before it or not,
/// ends a line; the last line may go without.
pub open spec fn lines(s: Seq<char>) -> Seq<Seq<char>>
    decreases s.len(),
{
    if s.len() == 0 {
        Seq::empty()
    } else {
        let n = line_end(s);
        if 0 <= n < s.len() {
            seq![strip_cr(s.take(n))] + lines(s.skip(n + 1))
        } else {
            seq![s]
        }
    }
}

/// The first line of a text that is not empty, and what follows it.
pub fn next_line(s: &[char]) -> (r: (&[char], &[char]))
    requires
        s@.len() > 0,
    ensures
        lines(s@) == seq![r.0@] + lines(r.1@),
        r.1@.len() < s@.len(),
{
    let len: usize = s.len();
    let mut n: usize = 0;
    assert(s@.skip(0) =~= s@);
    while n < len && s[n] != '\n'
        invariant
            n <= len == s@.len(),
            line_end(s@) == n + line_end(s@.skip(n as int)),
        decreases len - n,
    {
        assert(s@.skip(n as int).skip(1) =~= s@.skip(n + 1));
        n += 1;
    }
    if n == len {
        let rest = vstd::slice::slice_subrange(s, len, len);
        assert(rest@ =~= Seq::<char>::empty());
        assert(seq![s@] + Seq::<Seq<char>>::empty() =~= seq![s@]);
        (s, rest)
    } else {
        let rest = vstd::slice::slice_subrange(s, n + 1, len);
        assert(rest@ =~= s@.skip(n + 1));
        let m: usize = if n > 0 && s[n - 1] == '\r' {
            n - 1
        } else {
            n
        };
        let line = vstd::slice::slice_subrange(s, 0, m);
        assert(line@ =~= strip_cr(s@.take(n as int)));
        (line, rest)
    }
}

/// A text with every occurrence of a pattern replaced, from left to right.
pub open spec fn replaced(s: Seq<char>, pat: Seq<char>, with: Seq<char>) -> Seq<char>
    decreases s.len(),
{
    if pat.len() == 0 {
        s
    } else {
        match find_from(s, pat, 0) {
            Some(i) if 0 <= i && i + pat.len() <= s.len() => s.take(i) + with + replaced(s.skip(i + pat.len()), pat, with),
            _ => s,
        }
    }
}

/// The text with every occurrence of a pattern replaced.
pub fn replace_all(s: &[char], pat: &[char], with: &[char]) -> (r: String)
    requires
        pat@.len() > 0,
    ensures
        r@ == replaced(s@, pat@, with@),
{
    let mut out = String::new();
    let mut rest = s;
    assert(out@ + replaced(rest@, pat@, with@) =~= replaced(s@, pat@, with@));
    let mut hit: Option<usize> = find(rest, pat, 0);
    while hit.is_some()
        invariant
            pat@.len() > 0,
            match hit {
                Some(i) => find_from(rest@, pat@, 0) == Some(i as int) && i + pat@.len() <= rest@.len(),
                None => find_from(rest@, pat@, 0) is None,
            },
            out@ + replaced(rest@, pat@, with@) == replaced(s@, pat@, with@),
        decreases rest@.len(),
    {
        let i: usize = hit.unwrap();
        let len: usize = rest.len();
        let ghost before = out@;
        let ghost old_rest = rest@;
        push_chars(&mut out, vstd::slice::slice_subrange(rest, 0, i));
        push_chars(&mut out, with);
        rest = vstd::slice::slice_subrange(rest, i + pat.len(), len);
        proof {
            assert(rest@ =~= old_rest.skip(i + pat@.len()));
            assert(old_rest.subrange(0, i as int) =~= old_rest.take(i as int));
            assert(out@ + replaced(rest@, pat@, with@) =~= before + (old_rest.take(i as int) + with@ + replaced(
                rest@,
                pat@,
                with@,
            )));
        }
        hit = find(rest, pat, 0);
    }
    push_chars(&mut out, rest);
    out
}

/// The texts of strings.
pub open spec fn texts(s: Seq<String>) -> Seq<Seq<char>> {
    s.map_values(|t: String| t@)
}

/// Whether a list has a text.
pub fn has_text(list: &[String], text: &str) -> (r: bool)
    ensures
        r <==> texts(list@).contains(text@),
{
    let mut i: usize = 0;
    while i < list.len()
        invariant
            i <= list@.len(),
            forall|k: int| 0 <= k < i ==> (#[trigger] list@[k])@ != text@,
        decreases list.len() - i,
    {
        if same_text(list[i].as_str(), text) {
            assert(texts(list@)[i as int] == text@);
            return true;
        }
        i += 1;
    }
    proof {
        if texts(list@).contains(text@) {
            let k = choose|k: int| 0 <= k < list@.len() && texts(list@)[k] == text@;
            assert(list@[k]@ == text@);
        }
    }
    false
}

/// The texts of a list after one more string.
pub proof fn lemma_texts_push(s: Seq<String>, t: String)
    ensures
        texts(s.push(t)) == texts(s).push(t@),
{
    assert(texts(s.push(t)) =~= texts(s).push(t@));
}

/// A text without white space around it has none at either end, and white space
/// around a text does not count.
pub proof fn law_white_space_around_does_not_count(s: Seq<char>, c: char)
    ensures
        trim(s).len() > 0 ==> !is_white(trim(s)[0]) && !is_white(trim(s).last()),
        is_white(c) ==> trim(seq![c] + s) == trim(s),
        s.len() > 0 && !is_white(s[0]) && !is_white(s.last()) ==> trim(s) == s,
        is_white(c) && s.len() > 0 && !is_white(s[0]) ==> trim(s.push(c)) == trim(s),
{
    lemma_trim_start(s);
    lemma_trim_end(trim_start(s));
    if is_white(c) {
        assert((seq![c] + s).skip(1) =~= s);
        if s.len() > 0 && !is_white(s[0]) {
            assert(s.push(c).drop_last() =~= s);
        }
    }
}

proof fn lemma_trim_start(s: Seq<char>)
    ensures
        trim_start(s).len() > 0 ==> !is_white(trim_start(s)[0]),
    decreases s.len(),
{
    if s.len() > 0 && is_white(s[0]) {
        lemma_trim_start(s.skip(1));
    }
}

proof fn lemma_trim_end(s: Seq<char>)
    ensures
        trim_end(s).len() > 0 ==> !is_white(trim_end(s).last()) && trim_end(s)[0] == s[0],
    decreases s.len(),
{
    if s.len() > 0 && is_white(s.last()) {
        lemma_trim_end(s.drop_last());
    }
}

/// A line feed ends a line, with a carriage return before it or not; a text
/// without one is a line by itself.
pub proof fn law_lines_end_at_line_feeds(a: Seq<char>, b: Seq<char>)
    requires
        !a.contains('\n'),
        a.len() > 0,
        a.last() != '\r',
    ensures
        lines(a) == seq![a],
        lines(a + seq!['\n'] + b) == seq![a] + lines(b),
        lines(a + seq!['\r', '\n'] + b) == seq![a] + lines(b),
        lines(Seq::empty()) == Seq::<Seq<char>>::empty(),
{
    assert forall|i: int| 0 <= i < a.len() implies a[i] != '\n' by {
        assert(a.contains(a[i]));
    }
    let s = a + seq!['\n'] + b;
    let t = a + seq!['\r', '\n'] + b;
    let n = a.len() as int;
    lemma_line_end(a, n);
    lemma_line_end(s, n);
    assert(s.take(n) =~= a && s.skip(n + 1) =~= b);
    lemma_line_end(t, n + 1);
    assert(t.take(n + 1) =~= a.push('\r') && t.skip(n + 2) =~= b);
    assert(a.push('\r').drop_last() =~= a);
}

proof fn lemma_line_end(s: Seq<char>, n: int)
    requires
        0 <= n <= s.len(),
        forall|i: int| 0 <= i < n ==> s[i] != '\n',
        n < s.len() ==> s[n] == '\n',
    ensures
        line_end(s) == n,
    decreases n,
{
    if n > 0 {
        lemma_line_end(s.skip(1), n - 1);
    }
}

/// A text in which a pattern does not occur stays as it is; one that is a pattern
/// between two texts becomes the replacement between them, where the first has
/// none of it up to there, and what follows is replaced too.
pub proof fn law_patterns_are_replaced_in_turn(a: Seq<char>, b: Seq<char>, pat: Seq<char>, with: Seq<char>)
    requires
        pat.len() > 0,
        forall|i: int| 0 <= i < a.len() ==> !#[trigger] occurs_at(a + pat + b, pat, i),
    ensures
        replaced(a + pat + b, pat, with) == a + with + replaced(b, pat, with),
        (forall|i: int| !#[trigger] occurs_at(b, pat, i)) ==> replaced(b, pat, with) == b,
{
    let s = a + pat + b;
    let n = a.len() as int;
    assert(s.subrange(n, n + pat.len()) =~= pat);
    assert(occurs_at(s, pat, n));
    lemma_found_at(s, pat, 0, n);
    assert(s.take(n) =~= a);
    assert(s.skip(n + pat.len()) =~= b);
    if forall|i: int| !#[trigger] occurs_at(b, pat, i) {
        lemma_not_found(b, pat, 0);
    }
}

/// A pattern is found where it stands first.
pub proof fn lemma_found_at(s: Seq<char>, pat: Seq<char>, from: int, n: int)
    requires
        0 <= from <= n,
        occurs_at(s, pat, n),
        forall|i: int| from <= i < n ==> !#[trigger] occurs_at(s, pat, i),
    ensures
        find_from(s, pat, from) == Some(n),
    decreases n - from,
{
    if from < n {
        assert(!occurs_at(s, pat, from));
        lemma_found_at(s, pat, from + 1, n);
    }
}

proof fn lemma_not_found(s: Seq<char>, pat: Seq<char>, from: int)
    requires
        0 <= from,
        forall|i: int| !#[trigger] occurs_at(s, pat, i),
    ensures
        find_from(s, pat, from) is None,
    decreases s.len() - from + 1,
{
    if from + pat.len() <= s.len() {
        assert(!occurs_at(s, pat, from));
        lemma_not_found(s, pat, from + 1);
    }
}

/// Numbers are read with a sign before them or without one: a plus sign changes
/// nothing, and a minus sign is read only where a number may be less than 0. A
/// number that is too large is none.
pub proof fn law_signs_are_read(n: nat, max: int)
    ensures
        signed_number(decimal(n)) == Some(n as int),
        signed_number(seq!['-'] + decimal(n)) == Some(-(n as int)),
        signed_number(seq!['+'] + decimal(n)) == Some(n as int),
        unsigned_number(seq!['+'] + decimal(n)) == Some(n),
        unsigned_number(seq!['-'] + decimal(n)) is None,
        capped(unsigned_number(decimal(n)), max) == (if n <= max {
            Some(n)
        } else {
            None
        }),
        signed_number(Seq::empty()) is None,
{
    law_decimal_round_trip(n);
    let d = decimal(n);
    let (minus, plus) = (seq!['-'] + d, seq!['+'] + d);
    assert(minus.skip(1) =~= d && plus.skip(1) =~= d);
    assert(is_digit(d[0]));
    assert(minus[0] == '-' && !is_digit(minus[0]));
}

/// What follows the last `c` is what stands behind it; without one it is all.
pub proof fn law_the_last_one_counts(a: Seq<char>, b: Seq<char>, c: char)
    requires
        !b.contains(c),
    ensures
        after_last(a + seq![c] + b, c) == b,
        after_last(b, c) == b,
    decreases b.len(),
{
    let s = a + seq![c] + b;
    if b.len() > 0 {
        let less = b.drop_last();
        assert(b.contains(b.last()));
        assert forall|i: int| 0 <= i < less.len() implies less[i] != c by {
            assert(b.contains(b[i]));
        }
        law_the_last_one_counts(a, less, c);
        assert(s.drop_last() =~= a + seq![c] + less);
        assert(s.last() == b.last());
        assert(less.push(b.last()) =~= b);
    } else {
        assert(s.last() == c);
        assert(b =~= Seq::empty());
    }
}

/// Cutting `c` off the end leaves a text that does not end with it, and takes
/// every one that stands there.
pub proof fn law_ends_are_cut(s: Seq<char>, c: char)
    ensures
        trim_end_of(s, c).len() > 0 ==> trim_end_of(s, c).last() != c,
        trim_end_of(s.push(c), c) == trim_end_of(s, c),
        s.len() > 0 && s.last() != c ==> trim_end_of(s, c) == s,
    decreases s.len(),
{
    assert(s.push(c).drop_last() =~= s);
    if s.len() > 0 && s.last() == c {
        law_ends_are_cut(s.drop_last(), c);
    }
}

/// The first token ends before the first white space behind it.
pub proof fn law_tokens_end_at_white_space(a: Seq<char>, b: Seq<char>, c: char)
    requires
        a.len() > 0,
        forall|i: int| 0 <= i < a.len() ==> !is_white(#[trigger] a[i]),
        is_white(c),
    ensures
        first_token(a) == a,
        first_token(a + seq![c] + b) == a,
        first_token(seq![c] + a) == a,
{
    let s = a + seq![c] + b;
    lemma_until_white(a, a.len() as int);
    lemma_until_white(s, a.len() as int);
    assert(s.take(a.len() as int) =~= a && a.take(a.len() as int) =~= a);
    assert(s[0] == a[0]);
    assert((seq![c] + a).skip(1) =~= a);
}

proof fn lemma_until_white(s: Seq<char>, n: int)
    requires
        0 <= n <= s.len(),
        forall|i: int| 0 <= i < n ==> !is_white(#[trigger] s[i]),
        n < s.len() ==> is_white(s[n]),
    ensures
        until_white(s) == s.take(n),
    decreases n,
{
    if n > 0 {
        let t = s.skip(1);
        assert forall|i: int| 0 <= i < n - 1 implies !is_white(#[trigger] t[i]) by {
            assert(!is_white(s[i + 1]));
        }
        lemma_until_white(t, n - 1);
        assert(!is_white(s[0]));
    }
    assert(until_white(s) =~= s.take(n));
}

} // verus!
