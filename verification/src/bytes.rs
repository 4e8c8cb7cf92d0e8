//! Little-endian and big-endian byte encodings of unsigned numbers.

use vstd::prelude::*;

verus! {

/// The number whose little-endian digits in base 256 are `s`.
pub open spec fn le_value(s: Seq<u8>) -> nat
    decreases s.len(),
{
    if s.len() == 0 {
        0
    } else {
        s[0] as nat + 256 * le_value(s.drop_first())
    }
}

/// The `n` low base-256 digits of `v`, least significant first.
pub open spec fn le_bytes(v: nat, n: nat) -> Seq<u8>
    decreases n,
{
    if n == 0 {
        Seq::empty()
    } else {
        seq![(v % 256) as u8] + le_bytes(v / 256, (n - 1) as nat)
    }
}

/// The `n` low base-256 digits of `v`, most significant first.
pub open spec fn be_bytes(v: nat, n: nat) -> Seq<u8>
    decreases n,
{
    if n == 0 {
        Seq::empty()
    } else {
        be_bytes(v / 256, (n - 1) as nat).push((v % 256) as u8)
    }
}

/// One more than the largest number of `n` base-256 digits.
pub open spec fn limit(n: nat) -> nat
    decreases n,
{
    if n == 0 {
        1
    } else {
        256 * limit((n - 1) as nat)
    }
}

pub proof fn lemma_limits()
    ensures
        limit(1) == 0x100,
        limit(2) == 0x1_0000,
        limit(4) == 0x1_0000_0000,
        limit(8) == 0x1_0000_0000_0000_0000,
{
    reveal_with_fuel(limit, 9);
}

pub proof fn lemma_limit_monotone(a: nat, b: nat)
    requires
        a <= b,
    ensures
        limit(a) <= limit(b),
        1 <= limit(a),
    decreases b,
{
    if a < b {
        lemma_limit_monotone(a, (b - 1) as nat);
    } else if b > 0 {
        lemma_limit_monotone((a - 1) as nat, (b - 1) as nat);
    }
}

pub proof fn lemma_le_bytes_len(v: nat, n: nat)
    ensures
        le_bytes(v, n).len() == n,
    decreases n,
{
    if n > 0 {
        lemma_le_bytes_len(v / 256, (n - 1) as nat);
    }
}

pub proof fn lemma_be_bytes_len(v: nat, n: nat)
    ensures
        be_bytes(v, n).len() == n,
    decreases n,
{
    if n > 0 {
        lemma_be_bytes_len(v / 256, (n - 1) as nat);
    }
}

pub proof fn lemma_le_value_bound(s: Seq<u8>)
    ensures
        le_value(s) < limit(s.len()),
    decreases s.len(),
{
    if s.len() > 0 {
        lemma_le_value_bound(s.drop_first());
    }
}

/// Decoding the digits of a number that fits gives the number back.
pub proof fn le_value_of_bytes(v: nat, n: nat)
    requires
        v < limit(n),
    ensures
        le_value(le_bytes(v, n)) == v,
        le_bytes(v, n).len() == n,
    decreases n,
{
    if n > 0 {
        le_value_of_bytes(v / 256, (n - 1) as nat);
        assert(le_bytes(v, n).drop_first() =~= le_bytes(v / 256, (n - 1) as nat));
    }
}

/// The digits of any number stand for its remainder.
pub proof fn le_value_of_low_bytes(v: nat, n: nat)
    ensures
        le_value(le_bytes(v, n)) == v % limit(n),
        le_bytes(v, n).len() == n,
    decreases n,
{
    if n > 0 {
        let rest = limit((n - 1) as nat);
        le_value_of_low_bytes(v / 256, (n - 1) as nat);
        lemma_limit_monotone(0, (n - 1) as nat);
        vstd::arithmetic::div_mod::lemma_mod_breakdown(v as int, 256, rest as int);
        assert(le_bytes(v, n).drop_first() =~= le_bytes(v / 256, (n - 1) as nat));
    }
}

/// Most significant first, the digits stand for the same number.
pub proof fn be_bytes_are_reversed(v: nat, n: nat)
    ensures
        be_bytes(v, n) == le_bytes(v, n).reverse(),
    decreases n,
{
    lemma_le_bytes_len(v, n);
    lemma_be_bytes_len(v, n);
    if n > 0 {
        be_bytes_are_reversed(v / 256, (n - 1) as nat);
        lemma_le_bytes_len(v / 256, (n - 1) as nat);
        assert(be_bytes(v, n) =~= le_bytes(v, n).reverse());
    } else {
        assert(be_bytes(v, n) =~= le_bytes(v, n).reverse());
    }
}

/// Encoding the number that a byte string stands for gives the string back.
pub proof fn le_bytes_of_value(s: Seq<u8>)
    ensures
        le_bytes(le_value(s), s.len()) == s,
    decreases s.len(),
{
    if s.len() > 0 {
        le_bytes_of_value(s.drop_first());
        let rest = le_value(s.drop_first());
        assert((s[0] as nat + 256 * rest) / 256 == rest);
        assert(le_bytes(le_value(s), s.len()) =~= seq![s[0]] + s.drop_first());
        assert(seq![s[0]] + s.drop_first() =~= s);
    } else {
        assert(le_bytes(le_value(s), s.len()) =~= s);
    }
}

/// The number whose little-endian digits are the `n` bytes at `at`.
pub fn read_le(s: &[u8], at: usize, n: usize) -> (r: u64)
    requires
        n <= 8,
        at + n <= s@.len(),
    ensures
        r == le_value(s@.subrange(at as int, at + n)),
{
    let end: usize = s.len();
    let mut value: u64 = 0;
    let mut i: usize = n;
    while i > 0
        invariant
            i <= n <= 8,
            at + n <= end,
            end == s@.len(),
            value == le_value(s@.subrange(at + i, at + n)),
        decreases i,
    {
        let ghost tail = s@.subrange(at + i, at + n);
        proof {
            lemma_le_value_bound(tail);
            lemma_limit_monotone(tail.len() + 1, 8);
            lemma_limits();
            assert(s@.subrange(at + i - 1, at + n).drop_first() =~= tail);
        }
        i = i - 1;
        value = value * 256 + (s[at + i] as u64);
    }
    value
}

/// Appends the `n` low little-endian digits of a number.
pub fn push_le(out: &mut Vec<u8>, value: u64, n: usize)
    ensures
        final(out)@ == old(out)@ + le_bytes(value as nat, n as nat),
{
    let ghost start = out@;
    let mut rest: u64 = value;
    let mut i: usize = 0;
    while i < n
        invariant
            i <= n,
            out@ + le_bytes(rest as nat, (n - i) as nat) == start + le_bytes(
                value as nat,
                n as nat,
            ),
        decreases n - i,
    {
        let ghost before = out@;
        out.push((rest % 256) as u8);
        proof {
            let tail = le_bytes((rest / 256) as nat, (n - i - 1) as nat);
            assert(le_bytes(rest as nat, (n - i) as nat) =~= seq![(rest % 256) as u8] + tail);
            assert(out@ + tail =~= before + (seq![(rest % 256) as u8] + tail));
        }
        rest = rest / 256;
        i = i + 1;
    }
    assert(out@ + le_bytes(rest as nat, 0) =~= out@);
}

/// Appends the four big-endian digits of a 32-bit number.
pub fn push_be32(out: &mut Vec<u8>, value: u32)
    ensures
        final(out)@ == old(out)@ + be_bytes(value as nat, 4),
{
    let ghost start = out@;
    out.push((value / 0x100_0000) as u8);
    out.push(((value / 0x1_0000) % 256) as u8);
    out.push(((value / 0x100) % 256) as u8);
    out.push((value % 256) as u8);
    proof {
        reveal_with_fuel(be_bytes, 5);
        let v = value as nat;
        assert(v / 256 / 256 == v / 0x1_0000);
        assert(v / 256 / 256 / 256 == v / 0x100_0000);
        assert(out@ =~= start + be_bytes(v, 4));
    }
}

/// Appends the eight big-endian digits of a 64-bit number.
pub fn push_be64(out: &mut Vec<u8>, value: u64)
    ensures
        final(out)@ == old(out)@ + be_bytes(value as nat, 8),
{
    let ghost start = out@;
    let high: u32 = (value / 0x1_0000_0000) as u32;
    let low: u32 = (value % 0x1_0000_0000) as u32;
    push_be32(out, high);
    push_be32(out, low);
    proof {
        reveal_with_fuel(be_bytes, 9);
        let v = value as nat;
        let h = high as nat;
        let l = low as nat;
        assert(v == h * 0x1_0000_0000 + l);
        assert(v % 256 == l % 256);
        assert(v / 256 == h * 0x100_0000 + l / 256);
        assert((v / 256) % 256 == (l / 256) % 256);
        assert(v / 256 / 256 == h * 0x1_0000 + l / 256 / 256);
        assert((v / 256 / 256) % 256 == (l / 256 / 256) % 256);
        assert(v / 256 / 256 / 256 == h * 0x100 + l / 256 / 256 / 256);
        assert((v / 256 / 256 / 256) % 256 == (l / 256 / 256 / 256) % 256);
        assert(v / 256 / 256 / 256 / 256 == h);
        assert(out@ =~= start + be_bytes(v, 8));
    }
}

/// Appends a byte slice.
pub fn push_bytes(out: &mut Vec<u8>, source: &[u8])
    ensures
        final(out)@ == old(out)@ + source@,
{
    let ghost start = out@;
    out.extend_from_slice(source);
    assert(out@ =~= start + source@);
}

/// A copy of the bytes from `start` up to `end`.
pub fn copy_range(source: &[u8], start: usize, end: usize) -> (r: Vec<u8>)
    requires
        start <= end <= source@.len(),
    ensures
        r@ == source@.subrange(start as int, end as int),
{
    let mut out: Vec<u8> = Vec::new();
    let mut i: usize = start;
    while i < end
        invariant
            start <= i <= end <= source@.len(),
            out@ == source@.subrange(start as int, i as int),
        decreases end - i,
    {
        out.push(source[i]);
        i = i + 1;
        assert(out@ =~= source@.subrange(start as int, i as int));
    }
    out
}

/// Whether two byte slices hold the same bytes.
pub fn same_bytes(a: &[u8], b: &[u8]) -> (r: bool)
    ensures
        r == (a@ == b@),
{
    if a.len() != b.len() {
        return false;
    }
    let mut i: usize = 0;
    while i < a.len()
        invariant
            i <= a@.len(),
            a@.len() == b@.len(),
            forall|j: int| 0 <= j < i ==> a@[j] == b@[j],
        decreases a@.len() - i,
    {
        if a[i] != b[i] {
            assert(a@[i as int] != b@[i as int]);
            return false;
        }
        i = i + 1;
    }
    assert(a@ =~= b@);
    true
}

} // verus!
