//! Little-endian byte strings.

use vstd::prelude::*;

verus! {

/// The `n` low bytes of `v`, least significant byte first.
pub open spec fn le(v: nat, n: nat) -> Seq<u8>
    decreases n,
{
    if n == 0 {
        Seq::empty()
    } else {
        seq![(v % 256) as u8] + le(v / 256, (n - 1) as nat)
    }
}

/// The number that a byte string spells, least significant byte first.
pub open spec fn from_le(s: Seq<u8>) -> nat
    decreases s.len(),
{
    if s.len() == 0 {
        0
    } else {
        s[0] as nat + 256 * from_le(s.skip(1))
    }
}

/// 256 to the power of `n`.
pub open spec fn pow256(n: nat) -> nat
    decreases n,
{
    if n == 0 {
        1
    } else {
        256 * pow256((n - 1) as nat)
    }
}

/// The unsigned 32-bit pattern of a signed number.
pub open spec fn bits32(v: i32) -> nat {
    if v < 0 {
        (v + 0x1_0000_0000) as nat
    } else {
        v as nat
    }
}

/// The signed number with an unsigned 32-bit pattern.
pub open spec fn signed32(b: nat) -> int {
    if b >= 0x8000_0000 {
        b - 0x1_0000_0000
    } else {
        b as int
    }
}

/// The unsigned 16-bit pattern of a signed number.
pub open spec fn bits16(v: i16) -> nat {
    if v < 0 {
        (v + 0x1_0000) as nat
    } else {
        v as nat
    }
}

/// The signed number with an unsigned 16-bit pattern.
pub open spec fn signed16(b: nat) -> int {
    if b >= 0x8000 {
        b - 0x1_0000
    } else {
        b as int
    }
}

/// Little-endian bytes of a run of 64-bit words.
pub open spec fn u64s_le(s: Seq<u64>) -> Seq<u8>
    decreases s.len(),
{
    if s.len() == 0 {
        Seq::empty()
    } else {
        u64s_le(s.drop_last()) + le(s.last() as nat, 8)
    }
}

/// Little-endian bytes of a run of 32-bit words.
pub open spec fn u32s_le(s: Seq<u32>) -> Seq<u8>
    decreases s.len(),
{
    if s.len() == 0 {
        Seq::empty()
    } else {
        u32s_le(s.drop_last()) + le(s.last() as nat, 4)
    }
}

/// Little-endian bytes of a run of 16-bit words.
pub open spec fn u16s_le(s: Seq<u16>) -> Seq<u8>
    decreases s.len(),
{
    if s.len() == 0 {
        Seq::empty()
    } else {
        u16s_le(s.drop_last()) + le(s.last() as nat, 2)
    }
}

/// Little-endian bytes of a run of signed 32-bit numbers.
pub open spec fn i32s_le(s: Seq<i32>) -> Seq<u8>
    decreases s.len(),
{
    if s.len() == 0 {
        Seq::empty()
    } else {
        i32s_le(s.drop_last()) + le(bits32(s.last()), 4)
    }
}

/// Appends the `n` low bytes of a number.
pub fn push_le(out: &mut Vec<u8>, v: u64, n: usize)
    ensures
        final(out)@ == old(out)@ + le(v as nat, n as nat),
{
    let mut rest: u64 = v;
    let mut i: usize = 0;
    proof {
        assert(out@ + le(rest as nat, n as nat) =~= old(out)@ + le(v as nat, n as nat));
    }
    while i < n
        invariant
            i <= n,
            out@ + le(rest as nat, (n - i) as nat) == old(out)@ + le(v as nat, n as nat),
        decreases n - i,
    {
        let ghost before = out@;
        out.push((rest % 256) as u8);
        proof {
            let k = (n - i) as nat;
            assert(le(rest as nat, k) == seq![(rest as nat % 256) as u8] + le(rest as nat / 256, (k - 1) as nat));
            assert(before + le(rest as nat, k) =~= out@ + le(rest as nat / 256, (k - 1) as nat));
        }
        rest = rest / 256;
        i += 1;
    }
    assert(out@ =~= out@ + le(rest as nat, 0));
}

/// Appends a 16-bit number.
pub fn push_u16_le(out: &mut Vec<u8>, v: u16)
    ensures
        final(out)@ == old(out)@ + le(v as nat, 2),
{
    push_le(out, v as u64, 2);
}

/// Appends a 32-bit number.
pub fn push_u32_le(out: &mut Vec<u8>, v: u32)
    ensures
        final(out)@ == old(out)@ + le(v as nat, 4),
{
    out.push((v % 0x100) as u8);
    out.push((v / 0x100 % 0x100) as u8);
    out.push((v / 0x1_0000 % 0x100) as u8);
    out.push((v / 0x100_0000) as u8);
    proof {
        reveal_with_fuel(le, 5);
        assert(out@ =~= old(out)@ + le(v as nat, 4));
    }
}

/// Appends a signed 32-bit number.
pub fn push_i32_le(out: &mut Vec<u8>, v: i32)
    ensures
        final(out)@ == old(out)@ + le(bits32(v), 4),
{
    push_le(out, i32_bits(v) as u64, 4);
}

/// Appends a run of signed 32-bit numbers.
pub fn push_i32s_le(out: &mut Vec<u8>, s: &[i32])
    ensures
        final(out)@ == old(out)@ + i32s_le(s@),
{
    let mut i: usize = 0;
    assert(out@ + i32s_le(s@.take(0)) =~= out@);
    while i < s.len()
        invariant
            i <= s@.len(),
            out@ == old(out)@ + i32s_le(s@.take(i as int)),
        decreases s.len() - i,
    {
        push_i32_le(out, s[i]);
        proof {
            assert(s@.take(i + 1).drop_last() =~= s@.take(i as int));
            assert(old(out)@ + i32s_le(s@.take(i as int)) + le(bits32(s@[i as int]), 4) =~= old(out)@ + i32s_le(
                s@.take(i + 1),
            ));
        }
        i += 1;
    }
    assert(s@.take(i as int) =~= s@);
}

/// The 32-bit pattern of a signed number.
pub fn i32_bits(v: i32) -> (r: u32)
    ensures
        r == bits32(v),
{
    if v < 0 {
        (v as i64 + 0x1_0000_0000) as u32
    } else {
        v as u32
    }
}

/// The signed number with a 32-bit pattern.
pub fn i32_of_bits(b: u32) -> (r: i32)
    ensures
        r == signed32(b as nat),
{
    if b >= 0x8000_0000 {
        (b as i64 - 0x1_0000_0000) as i32
    } else {
        b as i32
    }
}

/// The 16-bit pattern of a signed number.
pub fn i16_bits(v: i16) -> (r: u16)
    ensures
        r == bits16(v),
{
    if v < 0 {
        (v as i32 + 0x1_0000) as u16
    } else {
        v as u16
    }
}

/// The signed number with a 16-bit pattern.
pub fn i16_of_bits(b: u16) -> (r: i16)
    ensures
        r == signed16(b as nat),
{
    if b >= 0x8000 {
        (b as i32 - 0x1_0000) as i16
    } else {
        b as i16
    }
}

/// The number that the `n` bytes at `at` spell, where the string holds them.
pub fn read_le(s: &[u8], at: usize, n: usize) -> (r: Option<u64>)
    requires
        n <= 8,
    ensures
        match r {
            Some(v) => at + n <= s@.len() && v == from_le(s@.subrange(at as int, at + n)) && v < pow256(n as nat),
            None => at + n > s@.len(),
        },
{
    let len: usize = s.len();
    if at > len || n > len - at {
        return None;
    }
    let mut v: u64 = 0;
    let mut i: usize = n;
    proof {
        reveal_with_fuel(pow256, 9);
        assert(s@.subrange(at + n, at + n).len() == 0);
    }
    while i > 0
        invariant
            i <= n <= 8,
            at + n <= s@.len() == len,
            v == from_le(s@.subrange(at + i, at + n)),
            v < pow256((n - i) as nat),
        decreases i,
    {
        let b: u8 = s[at + i - 1];
        proof {
            let tail = s@.subrange(at + i, at + n);
            let here = s@.subrange(at + i - 1, at + n);
            assert(here.skip(1) =~= tail);
            assert(here[0] == b);
            reveal_with_fuel(pow256, 9);
            assert(pow256((n - (i - 1)) as nat) == 256 * pow256((n - i) as nat));
            assert(pow256(8) == 0x1_0000_0000_0000_0000);
        }
        v = v * 256 + b as u64;
        i -= 1;
    }
    Some(v)
}

/// Reading back the bytes of a number gives the number, when the bytes hold
/// it.
pub proof fn law_le_round_trip(v: nat, n: nat)
    requires
        v < pow256(n),
    ensures
        le(v, n).len() == n,
        from_le(le(v, n)) == v,
    decreases n,
{
    if n > 0 {
        law_le_round_trip(v / 256, (n - 1) as nat);
        assert(le(v, n).skip(1) =~= le(v / 256, (n - 1) as nat));
    }
}

/// Writing the number that a byte string spells gives the string.
pub proof fn law_from_le_round_trip(s: Seq<u8>)
    ensures
        from_le(s) < pow256(s.len()),
        le(from_le(s), s.len()) == s,
    decreases s.len(),
{
    if s.len() > 0 {
        law_from_le_round_trip(s.skip(1));
        assert((s[0] as nat + 256 * from_le(s.skip(1))) / 256 == from_le(s.skip(1)));
        assert(s =~= seq![s[0]] + s.skip(1));
    }
}

/// The bit pattern of a signed number determines it.
pub proof fn law_bits_round_trip(v: i32, w: i16)
    ensures
        signed32(bits32(v)) == v,
        signed16(bits16(w)) == w,
{
}

/// Lengths of the byte strings.
pub proof fn lemma_le_len(v: nat, n: nat)
    ensures
        le(v, n).len() == n,
    decreases n,
{
    if n > 0 {
        lemma_le_len(v / 256, (n - 1) as nat);
    }
}

/// Eight bytes for each 64-bit word.
pub proof fn lemma_u64s_le_len(s: Seq<u64>)
    ensures
        u64s_le(s).len() == 8 * s.len(),
    decreases s.len(),
{
    if s.len() > 0 {
        lemma_u64s_le_len(s.drop_last());
        lemma_le_len(s.last() as nat, 8);
    }
}

/// Two bytes for each 16-bit word.
pub proof fn lemma_u16s_le_len(s: Seq<u16>)
    ensures
        u16s_le(s).len() == 2 * s.len(),
    decreases s.len(),
{
    if s.len() > 0 {
        lemma_u16s_le_len(s.drop_last());
        lemma_le_len(s.last() as nat, 2);
    }
}

/// Four bytes for each 32-bit word.
pub proof fn lemma_u32s_le_len(s: Seq<u32>)
    ensures
        u32s_le(s).len() == 4 * s.len(),
    decreases s.len(),
{
    if s.len() > 0 {
        lemma_u32s_le_len(s.drop_last());
        lemma_le_len(s.last() as nat, 4);
    }
}

/// The bytes of a word stand at its place.
pub proof fn lemma_u64s_le_at(s: Seq<u64>, i: int)
    requires
        0 <= i < s.len(),
    ensures
        u64s_le(s).len() == 8 * s.len(),
        u64s_le(s).subrange(8 * i, 8 * i + 8) == le(s[i] as nat, 8),
    decreases s.len(),
{
    lemma_u64s_le_len(s);
    lemma_u64s_le_len(s.drop_last());
    lemma_le_len(s.last() as nat, 8);
    if i == s.len() - 1 {
        assert(u64s_le(s).subrange(8 * i, 8 * i + 8) =~= le(s[i] as nat, 8));
    } else {
        lemma_u64s_le_at(s.drop_last(), i);
        assert(u64s_le(s).subrange(8 * i, 8 * i + 8) =~= u64s_le(s.drop_last()).subrange(8 * i, 8 * i + 8));
    }
}

/// The bytes of a word stand at its place.
pub proof fn lemma_u32s_le_at(s: Seq<u32>, i: int)
    requires
        0 <= i < s.len(),
    ensures
        u32s_le(s).len() == 4 * s.len(),
        u32s_le(s).subrange(4 * i, 4 * i + 4) == le(s[i] as nat, 4),
    decreases s.len(),
{
    lemma_u32s_le_len(s);
    lemma_u32s_le_len(s.drop_last());
    lemma_le_len(s.last() as nat, 4);
    if i == s.len() - 1 {
        assert(u32s_le(s).subrange(4 * i, 4 * i + 4) =~= le(s[i] as nat, 4));
    } else {
        lemma_u32s_le_at(s.drop_last(), i);
        assert(u32s_le(s).subrange(4 * i, 4 * i + 4) =~= u32s_le(s.drop_last()).subrange(4 * i, 4 * i + 4));
    }
}

/// The bytes of a word stand at its place.
pub proof fn lemma_u16s_le_at(s: Seq<u16>, i: int)
    requires
        0 <= i < s.len(),
    ensures
        u16s_le(s).len() == 2 * s.len(),
        u16s_le(s).subrange(2 * i, 2 * i + 2) == le(s[i] as nat, 2),
    decreases s.len(),
{
    lemma_u16s_le_len(s);
    lemma_u16s_le_len(s.drop_last());
    lemma_le_len(s.last() as nat, 2);
    if i == s.len() - 1 {
        assert(u16s_le(s).subrange(2 * i, 2 * i + 2) =~= le(s[i] as nat, 2));
    } else {
        lemma_u16s_le_at(s.drop_last(), i);
        assert(u16s_le(s).subrange(2 * i, 2 * i + 2) =~= u16s_le(s.drop_last()).subrange(2 * i, 2 * i + 2));
    }
}

} // verus!
