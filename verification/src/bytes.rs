//! Byte strings: fixed-width integers in both byte orders, comparison and copying.

use vstd::arithmetic::div_mod::{
    lemma_div_denominator, lemma_fundamental_div_mod, lemma_fundamental_div_mod_converse,
};
use byteorder::{BigEndian, ByteOrder};
use vstd::prelude::*;
use vstd::slice::slice_subrange;

verus! {

/// The four bytes of `n`, least significant first.
pub open spec fn le_u32_bytes(n: u32) -> Seq<u8> {
    seq![
        (n % 0x100) as u8,
        ((n / 0x100) % 0x100) as u8,
        ((n / 0x1_0000) % 0x100) as u8,
        (n / 0x100_0000) as u8,
    ]
}

/// The number that four bytes spell, least significant first.
pub open spec fn le_u32_value(s: Seq<u8>) -> int
    recommends
        s.len() == 4,
{
    s[0] + 0x100 * s[1] + 0x1_0000 * s[2] + 0x100_0000 * s[3]
}

/// The four bytes of `n`, most significant first.
pub open spec fn be_u32_bytes(n: u32) -> Seq<u8> {
    seq![
        (n / 0x100_0000) as u8,
        ((n / 0x1_0000) % 0x100) as u8,
        ((n / 0x100) % 0x100) as u8,
        (n % 0x100) as u8,
    ]
}

/// The eight bytes of `n`, least significant first.
pub open spec fn le_u64_bytes(n: u64) -> Seq<u8> {
    le_u32_bytes((n % 0x1_0000_0000) as u32) + le_u32_bytes((n / 0x1_0000_0000) as u32)
}

/// The number that eight bytes spell, least significant first.
pub open spec fn le_u64_value(s: Seq<u8>) -> int
    recommends
        s.len() == 8,
{
    le_u32_value(s.subrange(0, 4)) + 0x1_0000_0000 * le_u32_value(s.subrange(4, 8))
}

/// The number that four bytes spell, most significant first.
pub open spec fn be_u32_value(s: Seq<u8>) -> int
    recommends
        s.len() == 4,
{
    0x100_0000 * s[0] + 0x1_0000 * s[1] + 0x100 * s[2] + s[3]
}

/// The number that eight bytes spell, most significant first.
pub open spec fn be_u64_value(s: Seq<u8>) -> int
    recommends
        s.len() == 8,
{
    0x1_0000_0000 * be_u32_value(s.subrange(0, 4)) + be_u32_value(s.subrange(4, 8))
}

/// The eight bytes of `n`, most significant first.
pub open spec fn be_u64_bytes(n: u64) -> Seq<u8> {
    be_u32_bytes((n / 0x1_0000_0000) as u32) + be_u32_bytes((n % 0x1_0000_0000) as u32)
}

/// The four base-256 digits of a number below 2^32 spell that number.
proof fn lemma_digits_spell_number(n: int)
    requires
        0 <= n <= u32::MAX,
    ensures
        n == n % 0x100 + 0x100 * ((n / 0x100) % 0x100) + 0x1_0000 * ((n / 0x1_0000) % 0x100)
            + 0x100_0000 * (n / 0x100_0000),
        0 <= n / 0x100_0000 < 0x100,
{
    lemma_fundamental_div_mod(n, 0x100);
    lemma_fundamental_div_mod(n / 0x100, 0x100);
    lemma_fundamental_div_mod(n / 0x1_0000, 0x100);
    lemma_div_denominator(n, 0x100, 0x100);
    lemma_div_denominator(n, 0x1_0000, 0x100);
}

/// A number spelled by four base-256 digits has exactly those digits.
proof fn lemma_number_has_digits(b0: int, b1: int, b2: int, b3: int)
    requires
        0 <= b0 < 0x100,
        0 <= b1 < 0x100,
        0 <= b2 < 0x100,
        0 <= b3 < 0x100,
    ensures
        ({
            let n = b0 + 0x100 * b1 + 0x1_0000 * b2 + 0x100_0000 * b3;
            &&& 0 <= n <= u32::MAX
            &&& n % 0x100 == b0
            &&& (n / 0x100) % 0x100 == b1
            &&& (n / 0x1_0000) % 0x100 == b2
            &&& n / 0x100_0000 == b3
        }),
{
    let n = b0 + 0x100 * b1 + 0x1_0000 * b2 + 0x100_0000 * b3;
    let q1 = b1 + 0x100 * b2 + 0x1_0000 * b3;
    let q2 = b2 + 0x100 * b3;
    lemma_fundamental_div_mod_converse(n, 0x100, q1, b0);
    lemma_fundamental_div_mod_converse(q1, 0x100, q2, b1);
    lemma_fundamental_div_mod_converse(n, 0x1_0000, q2, b0 + 0x100 * b1);
    lemma_fundamental_div_mod_converse(q2, 0x100, b3, b2);
    lemma_fundamental_div_mod_converse(n, 0x100_0000, b3, b0 + 0x100 * b1 + 0x1_0000 * b2);
}

/// Reading back the little-endian bytes of a `u32` gives the number.
pub proof fn lemma_le_u32_value_of_bytes(n: u32)
    ensures
        le_u32_bytes(n).len() == 4,
        le_u32_value(le_u32_bytes(n)) == n,
{
    lemma_digits_spell_number(n as int);
}

/// Four bytes are the little-endian bytes of the number they spell.
pub proof fn lemma_le_u32_bytes_of_value(s: Seq<u8>)
    requires
        s.len() == 4,
    ensures
        0 <= le_u32_value(s) <= u32::MAX,
        le_u32_bytes(le_u32_value(s) as u32) == s,
{
    lemma_number_has_digits(s[0] as int, s[1] as int, s[2] as int, s[3] as int);
    assert(le_u32_bytes(le_u32_value(s) as u32) =~= s);
}

/// Reading back the little-endian bytes of a `u64` gives the number.
pub proof fn lemma_le_u64_value_of_bytes(n: u64)
    ensures
        le_u64_bytes(n).len() == 8,
        le_u64_value(le_u64_bytes(n)) == n,
{
    let lo = (n % 0x1_0000_0000) as u32;
    let hi = (n / 0x1_0000_0000) as u32;
    lemma_fundamental_div_mod(n as int, 0x1_0000_0000);
    lemma_le_u32_value_of_bytes(lo);
    lemma_le_u32_value_of_bytes(hi);
    assert(le_u64_bytes(n).subrange(0, 4) =~= le_u32_bytes(lo));
    assert(le_u64_bytes(n).subrange(4, 8) =~= le_u32_bytes(hi));
}

/// Eight bytes are the little-endian bytes of the number they spell.
pub proof fn lemma_le_u64_bytes_of_value(s: Seq<u8>)
    requires
        s.len() == 8,
    ensures
        0 <= le_u64_value(s) <= u64::MAX,
        le_u64_bytes(le_u64_value(s) as u64) == s,
{
    let lo = s.subrange(0, 4);
    let hi = s.subrange(4, 8);
    lemma_le_u32_bytes_of_value(lo);
    lemma_le_u32_bytes_of_value(hi);
    let n = le_u64_value(s) as u64;
    lemma_fundamental_div_mod_converse(
        le_u64_value(s),
        0x1_0000_0000,
        le_u32_value(hi),
        le_u32_value(lo),
    );
    assert((n % 0x1_0000_0000) as u32 == le_u32_value(lo));
    assert((n / 0x1_0000_0000) as u32 == le_u32_value(hi));
    assert(le_u64_bytes(n) =~= s);
}

/// Reading back the big-endian bytes of a `u32` gives the number.
pub proof fn lemma_be_u32_value_of_bytes(n: u32)
    ensures
        be_u32_bytes(n).len() == 4,
        be_u32_value(be_u32_bytes(n)) == n,
{
    lemma_digits_spell_number(n as int);
}

/// Reading back the big-endian bytes of a `u64` gives the number.
pub proof fn lemma_be_u64_value_of_bytes(n: u64)
    ensures
        be_u64_bytes(n).len() == 8,
        be_u64_value(be_u64_bytes(n)) == n,
{
    let hi = (n / 0x1_0000_0000) as u32;
    let lo = (n % 0x1_0000_0000) as u32;
    lemma_fundamental_div_mod(n as int, 0x1_0000_0000);
    lemma_be_u32_value_of_bytes(hi);
    lemma_be_u32_value_of_bytes(lo);
    assert(be_u64_bytes(n).subrange(0, 4) =~= be_u32_bytes(hi));
    assert(be_u64_bytes(n).subrange(4, 8) =~= be_u32_bytes(lo));
}

/// Whether `a` comes before `b`, or equals it, in the order of a dictionary:
/// the first byte that differs decides, and a prefix comes first.
pub open spec fn lex_le(a: Seq<u8>, b: Seq<u8>) -> bool
    decreases a.len(),
{
    if a.len() == 0 {
        true
    } else if b.len() == 0 {
        false
    } else if a[0] != b[0] {
        a[0] < b[0]
    } else {
        lex_le(a.drop_first(), b.drop_first())
    }
}

/// Of two byte strings one comes before the other or equals it.
pub proof fn lemma_lex_le_total(a: Seq<u8>, b: Seq<u8>)
    ensures
        lex_le(a, b) || lex_le(b, a),
    decreases a.len(),
{
    if a.len() > 0 && b.len() > 0 && a[0] == b[0] {
        lemma_lex_le_total(a.drop_first(), b.drop_first());
        assert(lex_le(a, b) == lex_le(a.drop_first(), b.drop_first()));
        assert(lex_le(b, a) == lex_le(b.drop_first(), a.drop_first()));
    }
}

/// What comes before something that comes before a third comes before the third.
pub proof fn lemma_lex_le_transitive(a: Seq<u8>, b: Seq<u8>, c: Seq<u8>)
    requires
        lex_le(a, b),
        lex_le(b, c),
    ensures
        lex_le(a, c),
    decreases a.len(),
{
    if a.len() > 0 {
        assert(b.len() > 0);
        assert(c.len() > 0);
        if a[0] == b[0] && b[0] == c[0] {
            assert(lex_le(a.drop_first(), b.drop_first()));
            assert(lex_le(b.drop_first(), c.drop_first()));
            lemma_lex_le_transitive(a.drop_first(), b.drop_first(), c.drop_first());
            assert(lex_le(a, c) == lex_le(a.drop_first(), c.drop_first()));
        }
    }
}

/// Past a common prefix the rest decides the order.
proof fn lemma_lex_le_skips_common_prefix(a: Seq<u8>, b: Seq<u8>, n: int)
    requires
        0 <= n <= a.len(),
        n <= b.len(),
        forall|k: int| 0 <= k < n ==> a[k] == b[k],
    ensures
        lex_le(a, b) == lex_le(a.skip(n), b.skip(n)),
    decreases n,
{
    if n == 0 {
        assert(a.skip(0) =~= a);
        assert(b.skip(0) =~= b);
    } else {
        lemma_lex_le_skips_common_prefix(a.drop_first(), b.drop_first(), n - 1);
        assert(a.drop_first().skip(n - 1) =~= a.skip(n));
        assert(b.drop_first().skip(n - 1) =~= b.skip(n));
    }
}

/// Whether `a` comes before `b`, or equals it, in the order of a dictionary.
pub fn bytes_le(a: &[u8], b: &[u8]) -> (le: bool)
    ensures
        le == lex_le(a@, b@),
{
    let mut i: usize = 0;
    while i < a.len() && i < b.len()
        invariant
            i <= a@.len(),
            i <= b@.len(),
            forall|k: int| 0 <= k < i ==> a@[k] == b@[k],
        decreases a@.len() - i,
    {
        if a[i] != b[i] {
            proof {
                lemma_lex_le_skips_common_prefix(a@, b@, i as int);
            }
            return a[i] < b[i];
        }
        i = i + 1;
    }
    proof {
        lemma_lex_le_skips_common_prefix(a@, b@, i as int);
    }
    i == a.len()
}

/// Whether two byte strings hold the same bytes.
pub fn bytes_equal(a: &[u8], b: &[u8]) -> (same: bool)
    ensures
        same == (a@ == b@),
{
    if a.len() != b.len() {
        return false;
    }
    let mut i: usize = 0;
    while i < a.len()
        invariant
            a@.len() == b@.len(),
            i <= a@.len(),
            forall|k: int| 0 <= k < i ==> a@[k] == b@[k],
        decreases a@.len() - i,
    {
        if a[i] != b[i] {
            return false;
        }
        i = i + 1;
    }
    assert(a@ =~= b@);
    true
}

/// A copy of the bytes of `buf` from `from` up to `to`.
pub fn copy_range(buf: &[u8], from: usize, to: usize) -> (out: Vec<u8>)
    requires
        from <= to <= buf@.len(),
    ensures
        out@ == buf@.subrange(from as int, to as int),
{
    let mut out: Vec<u8> = Vec::new();
    let mut i: usize = from;
    while i < to
        invariant
            from <= i <= to <= buf@.len(),
            out@ == buf@.subrange(from as int, i as int),
        decreases to - i,
    {
        out.push(buf[i]);
        i = i + 1;
        assert(out@ =~= buf@.subrange(from as int, i as int));
    }
    out
}

/// A copy of `buf`.
pub fn copy_bytes(buf: &[u8]) -> (out: Vec<u8>)
    ensures
        out@ == buf@,
{
    let out = copy_range(buf, 0, buf.len());
    assert(buf@.subrange(0, buf@.len() as int) =~= buf@);
    out
}

/// Appends the bytes of `src` to `dst`.
pub fn append_bytes(dst: &mut Vec<u8>, src: &[u8])
    ensures
        final(dst)@ == old(dst)@ + src@,
{
    let mut i: usize = 0;
    while i < src.len()
        invariant
            i <= src@.len(),
            dst@ == old(dst)@ + src@.subrange(0, i as int),
        decreases src@.len() - i,
    {
        dst.push(src[i]);
        i = i + 1;
        assert(dst@ =~= old(dst)@ + src@.subrange(0, i as int));
    }
    assert(src@.subrange(0, src@.len() as int) =~= src@);
}

/// Appends the little-endian bytes of `n` to `dst`.
pub fn push_u32_le(dst: &mut Vec<u8>, n: u32)
    ensures
        final(dst)@ == old(dst)@ + le_u32_bytes(n),
{
    dst.push((n % 0x100) as u8);
    dst.push(((n / 0x100) % 0x100) as u8);
    dst.push(((n / 0x1_0000) % 0x100) as u8);
    dst.push((n / 0x100_0000) as u8);
    assert(dst@ =~= old(dst)@ + le_u32_bytes(n));
}

/// Appends the little-endian bytes of `n` to `dst`.
pub fn push_u64_le(dst: &mut Vec<u8>, n: u64)
    ensures
        final(dst)@ == old(dst)@ + le_u64_bytes(n),
{
    push_u32_le(dst, (n % 0x1_0000_0000) as u32);
    push_u32_le(dst, (n / 0x1_0000_0000) as u32);
    assert(dst@ =~= old(dst)@ + le_u64_bytes(n));
}

/// The little-endian number in the four bytes of `buf` that start at `at`.
pub fn read_u32_le(buf: &[u8], at: usize) -> (n: u32)
    requires
        at + 4 <= buf@.len(),
    ensures
        n == le_u32_value(buf@.subrange(at as int, at + 4)),
{
    let b0: u32 = buf[at] as u32;
    let b1: u32 = buf[at + 1] as u32;
    let b2: u32 = buf[at + 2] as u32;
    let b3: u32 = buf[at + 3] as u32;
    b0 + 0x100 * b1 + 0x1_0000 * b2 + 0x100_0000 * b3
}

/// The little-endian number in the eight bytes of `buf` that start at `at`.
pub fn read_u64_le(buf: &[u8], at: usize) -> (n: u64)
    requires
        at + 8 <= buf@.len(),
    ensures
        n == le_u64_value(buf@.subrange(at as int, at + 8)),
{
    assert(buf@.len() == buf.len());
    let lo: u64 = read_u32_le(buf, at) as u64;
    let hi: u64 = read_u32_le(buf, at + 4) as u64;
    proof {
        let s = buf@.subrange(at as int, at + 8);
        assert(s.subrange(0, 4) =~= buf@.subrange(at as int, at + 4));
        assert(s.subrange(4, 8) =~= buf@.subrange(at + 4, at + 8));
    }
    lo + 0x1_0000_0000 * hi
}

/// The big-endian number in the four bytes of `buf` that start at `at`.
pub fn read_u32_be(buf: &[u8], at: usize) -> (n: u32)
    requires
        at + 4 <= buf@.len(),
    ensures
        n == be_u32_value(buf@.subrange(at as int, at + 4)),
{
    let b0: u32 = buf[at] as u32;
    let b1: u32 = buf[at + 1] as u32;
    let b2: u32 = buf[at + 2] as u32;
    let b3: u32 = buf[at + 3] as u32;
    0x100_0000 * b0 + 0x1_0000 * b1 + 0x100 * b2 + b3
}

/// The big-endian number in the eight bytes of `buf` that start at `at`.
pub fn read_u64_be(buf: &[u8], at: usize) -> (n: u64)
    requires
        at + 8 <= buf@.len(),
    ensures
        n == be_u64_value(buf@.subrange(at as int, at + 8)),
{
    assert(buf@.len() == buf.len());
    let hi: u64 = read_u32_be(buf, at) as u64;
    let lo: u64 = read_u32_be(buf, at + 4) as u64;
    proof {
        let s = buf@.subrange(at as int, at + 8);
        assert(s.subrange(0, 4) =~= buf@.subrange(at as int, at + 4));
        assert(s.subrange(4, 8) =~= buf@.subrange(at + 4, at + 8));
    }
    0x1_0000_0000 * hi + lo
}

/// Calls `byteorder::BigEndian::write_u32` on the part of `buf` from `at`
/// on. The function writes the four bytes of `n`, most significant first,
/// over the first four bytes of what it is given and leaves the rest as it
/// was; it needs four bytes to write to.
#[verifier::external_body]
pub(crate) fn write_u32_be(buf: &mut Vec<u8>, at: usize, n: u32)
    requires
        at + 4 <= old(buf)@.len(),
    ensures
        final(buf)@ == old(buf)@.subrange(0, at as int) + be_u32_bytes(n) + old(buf)@.subrange(
            at + 4,
            old(buf)@.len() as int,
        ),
{
    BigEndian::write_u32(&mut buf[at..], n)
}

/// Appends the big-endian bytes of `n` to `dst`.
pub fn push_u32_be(dst: &mut Vec<u8>, n: u32)
    ensures
        final(dst)@ == old(dst)@ + be_u32_bytes(n),
{
    let at: usize = dst.len();
    dst.push(0);
    dst.push(0);
    dst.push(0);
    dst.push(0);
    write_u32_be(dst, at, n);
    assert(dst@ =~= old(dst)@ + be_u32_bytes(n));
}

/// Whether `needle` stands in `hay` from position `at` on.
pub open spec fn occurs_at(needle: Seq<u8>, hay: Seq<u8>, at: int) -> bool {
    0 <= at && at + needle.len() <= hay.len() && hay.subrange(at, at + needle.len()) == needle
}

/// Whether `needle` stands somewhere in `hay`.
pub open spec fn occurs_in(needle: Seq<u8>, hay: Seq<u8>) -> bool {
    exists|at: int| occurs_at(needle, hay, at)
}

/// Whether `needle` stands somewhere in `hay`.
pub fn bytes_contain(hay: &[u8], needle: &[u8]) -> (found: bool)
    ensures
        found == occurs_in(needle@, hay@),
{
    let size: usize = needle.len();
    let length: usize = hay.len();
    if size == 0 {
        assert(hay@.subrange(0, 0) =~= needle@);
        assert(occurs_at(needle@, hay@, 0));
        return true;
    }
    let mut at: usize = 0;
    while at <= length && length - at >= size
        invariant
            size == needle@.len(),
            length == hay@.len(),
            size >= 1,
            at <= length,
            forall|k: int| 0 <= k < at ==> !occurs_at(needle@, hay@, k),
        decreases length - at,
    {
        if bytes_equal(slice_subrange(hay, at, at + size), needle) {
            assert(occurs_at(needle@, hay@, at as int));
            return true;
        }
        at = at + 1;
    }
    false
}

} // verus!
