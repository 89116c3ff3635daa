//! Big-endian and little-endian integer fields, as the wire formats use them.

use vstd::prelude::*;

verus! {

/// Value of the two big-endian bytes at `pos`.
pub open spec fn be2(s: Seq<u8>, pos: int) -> u16
    recommends
        0 <= pos,
        pos + 2 <= s.len(),
{
    (s[pos] * 0x100 + s[pos + 1]) as u16
}

/// Value of the three big-endian bytes at `pos`.
pub open spec fn be3(s: Seq<u8>, pos: int) -> u32
    recommends
        0 <= pos,
        pos + 3 <= s.len(),
{
    (s[pos] * 0x10000 + s[pos + 1] * 0x100 + s[pos + 2]) as u32
}

/// Value of the four big-endian bytes at `pos`.
pub open spec fn be4(s: Seq<u8>, pos: int) -> u32
    recommends
        0 <= pos,
        pos + 4 <= s.len(),
{
    (s[pos] * 0x1000000 + s[pos + 1] * 0x10000 + s[pos + 2] * 0x100 + s[pos + 3]) as u32
}

/// Value of the eight big-endian bytes at `pos`.
pub open spec fn be8(s: Seq<u8>, pos: int) -> u64
    recommends
        0 <= pos,
        pos + 8 <= s.len(),
{
    (s[pos] * 0x100000000000000 + s[pos + 1] * 0x1000000000000 + s[pos + 2] * 0x10000000000
        + s[pos + 3] * 0x100000000 + s[pos + 4] * 0x1000000 + s[pos + 5] * 0x10000 + s[pos
        + 6] * 0x100 + s[pos + 7]) as u64
}

/// Value of the four little-endian bytes at `pos`.
pub open spec fn le4(s: Seq<u8>, pos: int) -> u32
    recommends
        0 <= pos,
        pos + 4 <= s.len(),
{
    (s[pos + 3] * 0x1000000 + s[pos + 2] * 0x10000 + s[pos + 1] * 0x100 + s[pos]) as u32
}

pub fn read_be2(s: &[u8], pos: usize) -> (r: u16)
    requires
        pos + 2 <= s@.len(),
    ensures
        r == be2(s@, pos as int),
{
    (s[pos] as u16) * 0x100 + (s[pos + 1] as u16)
}

pub fn read_be3(s: &[u8], pos: usize) -> (r: u32)
    requires
        pos + 3 <= s@.len(),
    ensures
        r == be3(s@, pos as int),
{
    (s[pos] as u32) * 0x10000 + (s[pos + 1] as u32) * 0x100 + (s[pos + 2] as u32)
}

pub fn read_be4(s: &[u8], pos: usize) -> (r: u32)
    requires
        pos + 4 <= s@.len(),
    ensures
        r == be4(s@, pos as int),
{
    (s[pos] as u32) * 0x1000000 + (s[pos + 1] as u32) * 0x10000 + (s[pos + 2] as u32) * 0x100 + (s[
        pos + 3] as u32)
}

pub fn read_be8(s: &[u8], pos: usize) -> (r: u64)
    requires
        pos + 8 <= s@.len(),
    ensures
        r == be8(s@, pos as int),
{
    (s[pos] as u64) * 0x100000000000000 + (s[pos + 1] as u64) * 0x1000000000000 + (s[pos
        + 2] as u64) * 0x10000000000 + (s[pos + 3] as u64) * 0x100000000 + (s[pos + 4] as u64)
        * 0x1000000 + (s[pos + 5] as u64) * 0x10000 + (s[pos + 6] as u64) * 0x100 + (s[pos
        + 7] as u64)
}

pub fn read_le4(s: &[u8], pos: usize) -> (r: u32)
    requires
        pos + 4 <= s@.len(),
    ensures
        r == le4(s@, pos as int),
{
    let b0 = s[pos];
    let b1 = s[pos + 1];
    let b2 = s[pos + 2];
    let b3 = s[pos + 3];
    (b3 as u32) * 0x1000000 + (b2 as u32) * 0x10000 + (b1 as u32) * 0x100 + (b0 as u32)
}

/// The two big-endian bytes of `x`.
pub open spec fn be2_of(x: u16) -> Seq<u8> {
    seq![(x / 0x100) as u8, (x % 0x100) as u8]
}

/// The three big-endian bytes of `x % 0x1000000`.
pub open spec fn be3_of(x: u32) -> Seq<u8> {
    seq![((x / 0x10000) % 0x100) as u8, ((x / 0x100) % 0x100) as u8, (x % 0x100) as u8]
}

/// The four big-endian bytes of `x`.
pub open spec fn be4_of(x: u32) -> Seq<u8> {
    seq![
        (x / 0x1000000) as u8,
        ((x / 0x10000) % 0x100) as u8,
        ((x / 0x100) % 0x100) as u8,
        (x % 0x100) as u8,
    ]
}

/// The eight big-endian bytes of `x`.
pub open spec fn be8_of(x: u64) -> Seq<u8> {
    seq![
        (x / 0x100000000000000) as u8,
        ((x / 0x1000000000000) % 0x100) as u8,
        ((x / 0x10000000000) % 0x100) as u8,
        ((x / 0x100000000) % 0x100) as u8,
        ((x / 0x1000000) % 0x100) as u8,
        ((x / 0x10000) % 0x100) as u8,
        ((x / 0x100) % 0x100) as u8,
        (x % 0x100) as u8,
    ]
}

/// Appends the two big-endian bytes of `x`.
pub fn push_be2(out: &mut Vec<u8>, x: u16)
    ensures
        final(out)@ == old(out)@ + be2_of(x),
{
    out.push((x / 0x100) as u8);
    out.push((x % 0x100) as u8);
    proof {
        assert(final(out)@ =~= old(out)@ + be2_of(x));
    }
}

/// Appends the three big-endian bytes of `x % 0x1000000`.
pub fn push_be3(out: &mut Vec<u8>, x: u32)
    ensures
        final(out)@ == old(out)@ + be3_of(x),
{
    out.push(((x / 0x10000) % 0x100) as u8);
    out.push(((x / 0x100) % 0x100) as u8);
    out.push((x % 0x100) as u8);
    proof {
        assert(final(out)@ =~= old(out)@ + be3_of(x));
    }
}

/// Appends the four big-endian bytes of `x`.
pub fn push_be4(out: &mut Vec<u8>, x: u32)
    ensures
        final(out)@ == old(out)@ + be4_of(x),
{
    out.push((x / 0x1000000) as u8);
    out.push(((x / 0x10000) % 0x100) as u8);
    out.push(((x / 0x100) % 0x100) as u8);
    out.push((x % 0x100) as u8);
    proof {
        assert(final(out)@ =~= old(out)@ + be4_of(x));
    }
}

/// Appends the eight big-endian bytes of `x`.
pub fn push_be8(out: &mut Vec<u8>, x: u64)
    ensures
        final(out)@ == old(out)@ + be8_of(x),
{
    out.push((x / 0x100000000000000) as u8);
    out.push(((x / 0x1000000000000) % 0x100) as u8);
    out.push(((x / 0x10000000000) % 0x100) as u8);
    out.push(((x / 0x100000000) % 0x100) as u8);
    out.push(((x / 0x1000000) % 0x100) as u8);
    out.push(((x / 0x10000) % 0x100) as u8);
    out.push(((x / 0x100) % 0x100) as u8);
    out.push((x % 0x100) as u8);
    proof {
        assert(final(out)@ =~= old(out)@ + be8_of(x));
    }
}

/// A two-byte read depends only on the two bytes.
pub proof fn lemma_be2_sub(s: Seq<u8>, pos: int, t: Seq<u8>, pos2: int)
    requires
        0 <= pos,
        pos + 2 <= s.len(),
        0 <= pos2,
        pos2 + 2 <= t.len(),
        s.subrange(pos, pos + 2) == t.subrange(pos2, pos2 + 2),
    ensures
        be2(s, pos) == be2(t, pos2),
{
    let a = s.subrange(pos, pos + 2);
    let b = t.subrange(pos2, pos2 + 2);
    assert(a[0] == s[pos] && a[1] == s[pos + 1]);
    assert(b[0] == t[pos2] && b[1] == t[pos2 + 1]);
}

/// A four-byte read depends only on the four bytes.
pub proof fn lemma_be4_sub(s: Seq<u8>, pos: int, t: Seq<u8>, pos2: int)
    requires
        0 <= pos,
        pos + 4 <= s.len(),
        0 <= pos2,
        pos2 + 4 <= t.len(),
        s.subrange(pos, pos + 4) == t.subrange(pos2, pos2 + 4),
    ensures
        be4(s, pos) == be4(t, pos2),
{
    let a = s.subrange(pos, pos + 4);
    let b = t.subrange(pos2, pos2 + 4);
    assert(a[0] == s[pos] && a[1] == s[pos + 1] && a[2] == s[pos + 2] && a[3] == s[pos + 3]);
    assert(b[0] == t[pos2] && b[1] == t[pos2 + 1] && b[2] == t[pos2 + 2] && b[3] == t[pos2 + 3]);
}

/// An eight-byte read depends only on the eight bytes.
pub proof fn lemma_be8_sub(s: Seq<u8>, pos: int, t: Seq<u8>, pos2: int)
    requires
        0 <= pos,
        pos + 8 <= s.len(),
        0 <= pos2,
        pos2 + 8 <= t.len(),
        s.subrange(pos, pos + 8) == t.subrange(pos2, pos2 + 8),
    ensures
        be8(s, pos) == be8(t, pos2),
{
    let a = s.subrange(pos, pos + 8);
    let b = t.subrange(pos2, pos2 + 8);
    assert(a[0] == s[pos] && a[1] == s[pos + 1] && a[2] == s[pos + 2] && a[3] == s[pos + 3] && a[4]
        == s[pos + 4] && a[5] == s[pos + 5] && a[6] == s[pos + 6] && a[7] == s[pos + 7]);
    assert(b[0] == t[pos2] && b[1] == t[pos2 + 1] && b[2] == t[pos2 + 2] && b[3] == t[pos2 + 3]
        && b[4] == t[pos2 + 4] && b[5] == t[pos2 + 5] && b[6] == t[pos2 + 6] && b[7] == t[pos2
        + 7]);
}

/// Reading back the two bytes of `be2_of` gives `x` again.
pub proof fn lemma_be2_of(x: u16)
    ensures
        be2(be2_of(x), 0) == x,
{
}

/// Reading back the four bytes of `be4_of` gives `x` again.
pub proof fn lemma_be4_of(x: u32)
    ensures
        be4(be4_of(x), 0) == x,
{
}

/// Reading back the eight bytes of `be8_of` gives `x` again.
pub proof fn lemma_be8_of(x: u64)
    ensures
        be8(be8_of(x), 0) == x,
{
    let x0: int = x as int;
    let x1: int = x0 / 0x100;
    let x2: int = x0 / 0x10000;
    let x3: int = x0 / 0x1000000;
    let x4: int = x0 / 0x100000000;
    let x5: int = x0 / 0x10000000000;
    let x6: int = x0 / 0x1000000000000;
    let x7: int = x0 / 0x100000000000000;
    vstd::arithmetic::div_mod::lemma_fundamental_div_mod(x0, 0x100);
    vstd::arithmetic::div_mod::lemma_fundamental_div_mod(x1, 0x100);
    vstd::arithmetic::div_mod::lemma_fundamental_div_mod(x2, 0x100);
    vstd::arithmetic::div_mod::lemma_fundamental_div_mod(x3, 0x100);
    vstd::arithmetic::div_mod::lemma_fundamental_div_mod(x4, 0x100);
    vstd::arithmetic::div_mod::lemma_fundamental_div_mod(x5, 0x100);
    vstd::arithmetic::div_mod::lemma_fundamental_div_mod(x6, 0x100);
    vstd::arithmetic::div_mod::lemma_div_denominator(x0, 0x100, 0x100);
    vstd::arithmetic::div_mod::lemma_div_denominator(x0, 0x10000, 0x100);
    vstd::arithmetic::div_mod::lemma_div_denominator(x0, 0x1000000, 0x100);
    vstd::arithmetic::div_mod::lemma_div_denominator(x0, 0x100000000, 0x100);
    vstd::arithmetic::div_mod::lemma_div_denominator(x0, 0x10000000000, 0x100);
    vstd::arithmetic::div_mod::lemma_div_denominator(x0, 0x1000000000000, 0x100);
    assert(x1 / 0x100 == x2 && x2 / 0x100 == x3 && x3 / 0x100 == x4 && x4 / 0x100 == x5 && x5
        / 0x100 == x6 && x6 / 0x100 == x7);
    assert(x7 % 0x100 == x7);
}

} // verus!
