//! Zeroed guest RAM that knows which of its chunks have been written.

use crate::bytes;
use crate::platform::MachineError;
use vstd::prelude::*;

verus! {

pub const RAM_CHUNK_BYTES: usize = 0x20_0000;

/// `s` with the bytes from `at` on replaced by `b`.
pub open spec fn splice(s: Seq<u8>, at: int, b: Seq<u8>) -> Seq<u8> {
    Seq::new(s.len(), |i: int| if at <= i < at + b.len() { b[i - at] } else { s[i] })
}

/// RAM of `n` zero bytes.
pub open spec fn zeros(n: nat) -> Seq<u8> {
    Seq::new(n, |i: int| 0u8)
}

/// Little-endian number of `bytes` bytes at `index`, if they all exist.
pub open spec fn value_at(s: Seq<u8>, index: int, bytes: u8) -> Option<u64> {
    if 0 < bytes <= 8 && index + bytes <= s.len() {
        Some(bytes::le_value(s.subrange(index, index + bytes)) as u64)
    } else {
        None
    }
}

/// RAM after a naturally aligned store of the low `bytes` bytes of `value`.
pub open spec fn stored(s: Seq<u8>, index: int, value: u64, bytes: u8) -> Option<Seq<u8>> {
    if 0 < bytes <= 8 && index + bytes <= s.len() && index % (bytes as int) == 0 {
        Some(splice(s, index, bytes::le_bytes(value as nat, bytes as nat)))
    } else {
        None
    }
}

/// Page `p` of `s`.
pub open spec fn page_of(s: Seq<u8>, page_bytes: int, p: int) -> Seq<u8> {
    s.subrange(p * page_bytes, p * page_bytes + page_bytes)
}

pub open spec fn all_zero(s: Seq<u8>) -> bool {
    forall|i: int| 0 <= i < s.len() ==> s[i] == 0
}

/// Indices below `upto`, ascending, of the pages that hold a nonzero byte.
pub open spec fn populated(s: Seq<u8>, page_bytes: int, upto: nat) -> Seq<int>
    decreases upto,
{
    if upto == 0 {
        Seq::empty()
    } else {
        let below = populated(s, page_bytes, (upto - 1) as nat);
        if all_zero(page_of(s, page_bytes, upto - 1)) {
            below
        } else {
            below.push(upto - 1)
        }
    }
}

/// Mark of a chunk that a nonzero byte was stored to since the RAM was zeroed.
#[derive(Clone, Copy, Debug, PartialEq, Eq, Structural)]
pub struct Written;

/// Contiguous guest RAM. An unmarked chunk holds zeros only, so that zeroing
/// the RAM and listing its populated pages need not look at it.
#[derive(Debug)]
pub struct GuestRam {
    pub bytes: Vec<u8>,
    pub chunks: Vec<Option<Written>>,
    pub len: usize,
}

/// Number of chunks that `len` bytes lie in.
pub open spec fn chunks_of(len: int) -> int {
    (len + RAM_CHUNK_BYTES - 1) / (RAM_CHUNK_BYTES as int)
}

/// Number of chunks that `len` bytes lie in.
pub fn chunk_count(len: usize) -> (r: usize)
    ensures
        r == chunks_of(len as int),
{
    let whole: usize = len / RAM_CHUNK_BYTES;
    if len % RAM_CHUNK_BYTES == 0 {
        whole
    } else {
        whole + 1
    }
}

/// Whether storing `b` from `at` on puts a nonzero byte into chunk `k`.
pub open spec fn reaches(at: int, b: Seq<u8>, k: int) -> bool {
    exists|i: int|
        0 <= i < b.len() && (#[trigger] b[i]) != 0 && (at + i) / (RAM_CHUNK_BYTES as int) == k
}

/// The chunks that are marked once `b` has been stored from `at` on: those that
/// were, and those that a nonzero byte reaches.
pub open spec fn grown(written: Seq<bool>, at: int, b: Seq<u8>) -> Seq<bool> {
    Seq::new(written.len(), |k: int| written[k] || reaches(at, b, k))
}

impl GuestRam {
    pub open spec fn view(&self) -> Seq<u8> {
        self.bytes@
    }

    pub open spec fn wf(&self) -> bool {
        &&& self.bytes@.len() == self.len
        &&& self.chunks@.len() == chunks_of(self.len as int)
        &&& forall|i: int|
            0 <= i < self.len && self.chunks@[i / (RAM_CHUNK_BYTES as int)] is None
                ==> #[trigger] self.bytes@[i] == 0
    }

    /// Which chunks are marked.
    pub open spec fn written(&self) -> Seq<bool> {
        Seq::new(self.chunks@.len(), |k: int| self.chunks@[k] is Some)
    }

    /// RAM of `len` zero bytes, none of which was written.
    pub open spec fn untouched(&self, len: int) -> bool {
        &&& self.wf()
        &&& self.len == len
        &&& self@ == zeros(len as nat)
        &&& self.written() == Seq::new(chunks_of(len) as nat, |k: int| false)
    }

    /// Zeroed RAM of `len` bytes. Only the allocator can refuse it: it is asked
    /// for the bytes and for one mark for each chunk.
    pub fn zeroed(len: usize) -> (r: Result<Self, MachineError>)
        ensures
            r matches Ok(ram) ==> ram.untouched(len as int),
            r matches Err(error) ==> error == MachineError::RamAllocationDenied(len),
    {
        let mut bytes: Vec<u8> = Vec::new();
        let mut chunks: Vec<Option<Written>> = Vec::new();
        let mut reserved: bool = bytes.try_reserve(len).is_ok();
        if reserved {
            reserved = chunks.try_reserve(chunk_count(len)).is_ok();
        }
        GuestRam::admitted(bytes, chunks, reserved, len)
    }

    /// Zeroed RAM of `len` bytes in the given empty tables, once the allocator
    /// has said whether it reserved their places.
    pub fn admitted(
        bytes: Vec<u8>,
        chunks: Vec<Option<Written>>,
        reserved: bool,
        len: usize,
    ) -> (r: Result<Self, MachineError>)
        requires
            bytes@.len() == 0,
            chunks@.len() == 0,
        ensures
            reserved ==> r is Ok && r->Ok_0.untouched(len as int),
            !reserved ==> r == Err::<Self, _>(MachineError::RamAllocationDenied(len)),
    {
        if !reserved {
            return Err(MachineError::RamAllocationDenied(len));
        }
        let count: usize = chunk_count(len);
        let mut bytes = bytes;
        bytes.resize(len, 0);
        let mut chunks = chunks;
        let mut i: usize = 0;
        while i < count
            invariant
                i <= count,
                chunks@.len() == i,
                forall|k: int| 0 <= k < i ==> (#[trigger] chunks@[k]) is None,
            decreases count - i,
        {
            chunks.push(None);
            i = i + 1;
        }
        let ram = GuestRam { bytes, chunks, len };
        assert(ram@ =~= zeros(len as nat));
        assert(ram.written() =~= Seq::new(chunks_of(len as int) as nat, |k: int| false));
        Ok(ram)
    }

    pub fn len(&self) -> (r: usize)
        requires
            self.wf(),
        ensures
            r == self.len,
            r == self@.len(),
    {
        self.len
    }

    pub fn fill_zero(&mut self)
        requires
            old(self).wf(),
        ensures
            final(self).wf(),
            final(self).len == old(self).len,
            final(self)@ == zeros(old(self).len as nat),
            final(self).written() == Seq::new(old(self).chunks@.len(), |k: int| false),
    {
        let mut k: usize = 0;
        while k < self.chunks.len()
            invariant
                k <= self.chunks@.len(),
                self.chunks@.len() == old(self).chunks@.len(),
                self.len == old(self).len,
                self.wf(),
                forall|j: int| 0 <= j < k ==> (#[trigger] self.chunks@[j]) is None,
            decreases self.chunks@.len() - k,
        {
            if self.chunks[k].is_some() {
                self.clear_chunk(k);
            }
            k = k + 1;
        }
        assert forall|i: int| 0 <= i < self.len implies self@[i] == 0 by {
            assert(0 <= i / (RAM_CHUNK_BYTES as int) < self.chunks@.len());
            assert(self.bytes@[i] == 0);
        }
        assert(self@ =~= zeros(self.len as nat));
        assert(self.written() =~= Seq::new(old(self).chunks@.len(), |k: int| false));
    }

    /// Zeroes one chunk and takes its mark.
    fn clear_chunk(&mut self, chunk: usize)
        requires
            old(self).wf(),
            chunk < old(self).chunks@.len(),
        ensures
            final(self).wf(),
            final(self).len == old(self).len,
            final(self).chunks@ == old(self).chunks@.update(chunk as int, None),
    {
        let start: usize = chunk * RAM_CHUNK_BYTES;
        let end: usize = if self.len - start < RAM_CHUNK_BYTES {
            self.len
        } else {
            start + RAM_CHUNK_BYTES
        };
        let mut i: usize = start;
        while i < end
            invariant
                start <= i <= end <= self.len,
                self.wf(),
                self.len == old(self).len,
                self.chunks@ == old(self).chunks@,
                forall|j: int| start <= j < i ==> #[trigger] self.bytes@[j] == 0,
            decreases end - i,
        {
            self.bytes[i] = 0;
            i = i + 1;
        }
        self.chunks[chunk] = None;
    }

    pub fn byte(&self, index: usize) -> (r: Option<u8>)
        requires
            self.wf(),
        ensures
            r == (if index < self.len {
                Some(self@[index as int])
            } else {
                None
            }),
    {
        if index < self.len {
            Some(self.bytes[index])
        } else {
            None
        }
    }

    pub fn read_value(&self, index: usize, bytes: u8) -> (r: Option<u64>)
        requires
            self.wf(),
        ensures
            r == value_at(self@, index as int, bytes),
    {
        let count: usize = bytes as usize;
        if count == 0 || count > 8 || index > self.len || self.len - index < count {
            return None;
        }
        let mut value: u64 = 0;
        let mut i: usize = count;
        while i > 0
            invariant
                self.wf(),
                i <= count <= 8,
                index + count <= self.len,
                value == bytes::le_value(self@.subrange(index + i, index + count)),
            decreases i,
        {
            let ghost tail = self@.subrange(index + i, index + count);
            proof {
                bytes::lemma_le_value_bound(tail);
                bytes::lemma_limit_monotone(tail.len() + 1, 8);
                bytes::lemma_limits();
                assert(self@.subrange(index + i - 1, index + count).drop_first() =~= tail);
            }
            i = i - 1;
            let byte: u8 = match self.byte(index + i) {
                Some(byte) => byte,
                None => 0,
            };
            value = value * 256 + (byte as u64);
        }
        Some(value)
    }

    pub fn set_byte(&mut self, index: usize, value: u8) -> (r: bool)
        requires
            old(self).wf(),
        ensures
            final(self).wf(),
            final(self).len == old(self).len,
            r == (index < old(self).len),
            r ==> final(self)@ == old(self)@.update(index as int, value),
            !r ==> final(self)@ == old(self)@,
            final(self).written() == (if r && value != 0 {
                old(self).written().update(index as int / (RAM_CHUNK_BYTES as int), true)
            } else {
                old(self).written()
            }),
    {
        if index >= self.len {
            return false;
        }
        self.bytes[index] = value;
        let chunk: usize = index / RAM_CHUNK_BYTES;
        if value != 0 {
            self.chunks[chunk] = Some(Written);
            assert(self.written() =~= old(self).written().update(chunk as int, true));
        }
        true
    }

    pub fn write_value(&mut self, index: usize, value: u64, bytes: u8) -> (r: bool)
        requires
            old(self).wf(),
        ensures
            final(self).wf(),
            final(self).len == old(self).len,
            match stored(old(self)@, index as int, value, bytes) {
                Some(s) => {
                    &&& r
                    &&& final(self)@ == s
                    &&& final(self).written() == grown(
                        old(self).written(),
                        index as int,
                        bytes::le_bytes(value as nat, bytes as nat),
                    )
                },
                None => !r && final(self)@ == old(self)@ && final(self).written() == old(
                    self,
                ).written(),
            },
    {
        let count: usize = bytes as usize;
        if count == 0 || count > 8 || index > self.len || self.len - index < count || index % count
            != 0 {
            return false;
        }
        let ghost digits = bytes::le_bytes(value as nat, count as nat);
        proof {
            bytes::lemma_le_bytes_len(value as nat, count as nat);
        }
        let mut rest: u64 = value;
        let mut i: usize = 0;
        assert(self.written() =~= grown(self.written(), index as int, digits.subrange(0, 0)));
        while i < count
            invariant
                self.wf(),
                old(self).wf(),
                self.len == old(self).len,
                i <= count <= 8,
                index + count <= self.len,
                digits.len() == count,
                bytes::le_bytes(rest as nat, (count - i) as nat) == digits.subrange(
                    i as int,
                    count as int,
                ),
                self@ == splice(old(self)@, index as int, digits.subrange(0, i as int)),
                self.written() == grown(
                    old(self).written(),
                    index as int,
                    digits.subrange(0, i as int),
                ),
            decreases count - i,
        {
            let ghost tail = bytes::le_bytes((rest / 256) as nat, (count - i - 1) as nat);
            proof {
                assert(digits.subrange(i as int, count as int)[0] == digits[i as int]);
                assert((seq![(rest % 256) as u8] + tail).drop_first() =~= tail);
                assert(digits.subrange(i as int, count as int).drop_first() =~= digits.subrange(
                    i + 1,
                    count as int,
                ));
            }
            let _ = self.set_byte(index + i, (rest % 256) as u8);
            proof {
                lemma_grown(old(self).written(), index as int, digits, i as int);
            }
            rest = rest / 256;
            i = i + 1;
            assert(self@ =~= splice(old(self)@, index as int, digits.subrange(0, i as int)));
        }
        assert(digits.subrange(0, count as int) =~= digits);
        true
    }

    pub fn copy_from_slice(&mut self, start: usize, source: &[u8]) -> (r: bool)
        requires
            old(self).wf(),
        ensures
            final(self).wf(),
            final(self).len == old(self).len,
            r == (start + source@.len() <= old(self).len),
            r ==> final(self)@ == splice(old(self)@, start as int, source@),
            !r ==> final(self)@ == old(self)@,
            final(self).written() == (if r {
                grown(old(self).written(), start as int, source@)
            } else {
                old(self).written()
            }),
    {
        if start > self.len || self.len - start < source.len() {
            return false;
        }
        let mut i: usize = 0;
        assert(self@ =~= splice(old(self)@, start as int, source@.subrange(0, 0)));
        assert(self.written() =~= grown(self.written(), start as int, source@.subrange(0, 0)));
        while i < source.len()
            invariant
                self.wf(),
                old(self).wf(),
                self.len == old(self).len,
                i <= source@.len(),
                start + source@.len() <= self.len,
                self@ == splice(old(self)@, start as int, source@.subrange(0, i as int)),
                self.written() == grown(
                    old(self).written(),
                    start as int,
                    source@.subrange(0, i as int),
                ),
            decreases source@.len() - i,
        {
            let _ = self.set_byte(start + i, source[i]);
            proof {
                lemma_grown(old(self).written(), start as int, source@, i as int);
            }
            i = i + 1;
            assert(self@ =~= splice(old(self)@, start as int, source@.subrange(0, i as int)));
        }
        assert(source@.subrange(0, source@.len() as int) =~= source@);
        true
    }

    pub fn copy_to_vec(&self, range: std::ops::Range<usize>) -> (r: Option<Vec<u8>>)
        requires
            self.wf(),
        ensures
            r is Some <==> range.start <= range.end <= self.len,
            r matches Some(v) ==> v@ == self@.subrange(range.start as int, range.end as int),
    {
        if range.start > range.end || range.end > self.len {
            return None;
        }
        let mut out: Vec<u8> = Vec::new();
        let mut i: usize = range.start;
        while i < range.end
            invariant
                self.wf(),
                range.start <= i <= range.end <= self.len,
                out@ == self@.subrange(range.start as int, i as int),
            decreases range.end - i,
        {
            if let Some(byte) = self.byte(i) {
                out.push(byte);
            }
            i = i + 1;
            assert(out@ =~= self@.subrange(range.start as int, i as int));
        }
        Some(out)
    }

    /// Lends a range.
    pub fn slice(&self, range: std::ops::Range<usize>) -> (r: Option<&[u8]>)
        requires
            self.wf(),
        ensures
            r is Some <==> range.start <= range.end <= self.len,
            r matches Some(s) ==> s@ == self@.subrange(range.start as int, range.end as int),
    {
        if range.start > range.end || range.end > self.len {
            return None;
        }
        Some(vstd::slice::slice_subrange(self.bytes.as_slice(), range.start, range.end))
    }

    pub fn write_page(&mut self, index: usize, page_bytes: usize, bytes: &[u8]) -> (r: bool)
        requires
            old(self).wf(),
        ensures
            final(self).wf(),
            final(self).len == old(self).len,
            r == (bytes@.len() == page_bytes && index * page_bytes + page_bytes <= old(self).len),
            r ==> final(self)@ == splice(old(self)@, index * page_bytes, bytes@),
            !r ==> final(self)@ == old(self)@,
            final(self).written() == (if r {
                grown(old(self).written(), index * page_bytes, bytes@)
            } else {
                old(self).written()
            }),
    {
        if bytes.len() != page_bytes {
            return false;
        }
        match index.checked_mul(page_bytes) {
            Some(start) => self.copy_from_slice(start, bytes),
            None => false,
        }
    }

    /// The pages that hold a nonzero byte, in ascending order.
    pub fn nonzero_pages(&self, page_bytes: usize) -> (r: Vec<(usize, Vec<u8>)>)
        requires
            self.wf(),
            page_bytes > 0,
            self.len % page_bytes == 0,
            RAM_CHUNK_BYTES % page_bytes == 0,
        ensures
            ({
                let pages = populated(
                    self@,
                    page_bytes as int,
                    (self.len / page_bytes) as nat,
                );
                &&& r@.len() == pages.len()
                &&& forall|k: int|
                    0 <= k < pages.len() ==> (#[trigger] r@[k]).0 == pages[k] && r@[k].1@
                        == page_of(self@, page_bytes as int, pages[k])
            }),
    {
        let count: usize = self.len / page_bytes;
        let mut out: Vec<(usize, Vec<u8>)> = Vec::new();
        let mut p: usize = 0;
        while p < count
            invariant
                self.wf(),
                page_bytes > 0,
                count == self.len / page_bytes,
                self.len % page_bytes == 0,
                RAM_CHUNK_BYTES % page_bytes == 0,
                p <= count,
                out@.len() == populated(self@, page_bytes as int, p as nat).len(),
                forall|k: int|
                    0 <= k < out@.len() ==> (#[trigger] out@[k]).0 == populated(
                        self@,
                        page_bytes as int,
                        p as nat,
                    )[k] && out@[k].1@ == page_of(
                        self@,
                        page_bytes as int,
                        populated(self@, page_bytes as int, p as nat)[k],
                    ),
            decreases count - p,
        {
            proof {
                vstd::arithmetic::div_mod::lemma_fundamental_div_mod(
                    self.len as int,
                    page_bytes as int,
                );
                vstd::arithmetic::mul::lemma_mul_inequality(
                    p + 1,
                    count as int,
                    page_bytes as int,
                );
                vstd::arithmetic::mul::lemma_mul_is_distributive_add_other_way(
                    page_bytes as int,
                    p as int,
                    1,
                );
                vstd::arithmetic::mul::lemma_mul_is_commutative(count as int, page_bytes as int);
            }
            let start: usize = p * page_bytes;
            let ghost page = page_of(self@, page_bytes as int, p as int);
            if self.chunks[start / RAM_CHUNK_BYTES].is_none() {
                proof {
                    lemma_page_in_one_chunk(p as int, page_bytes as int);
                    assert forall|i: int| 0 <= i < page.len() implies page[i] == 0 by {
                        assert(page[i] == self@[start + i]);
                    }
                    assert(all_zero(page));
                }
            } else {
                let bytes: Vec<u8> = match self.copy_to_vec(start..start + page_bytes) {
                    Some(bytes) => bytes,
                    None => Vec::new(),
                };
                if !is_zero(&bytes) {
                    out.push((p, bytes));
                }
            }
            p = p + 1;
        }
        out
    }

    /// An exact copy.
    pub fn duplicate(&self) -> (r: Self)
        requires
            self.wf(),
        ensures
            r.wf(),
            r@ == self@,
            r.len == self.len,
            r.written() == self.written(),
    {
        let bytes: Vec<u8> = self.bytes.clone();
        let chunks: Vec<Option<Written>> = self.chunks.clone();
        assert(bytes@ =~= self.bytes@);
        assert(chunks@ =~= self.chunks@);
        GuestRam { bytes, chunks, len: self.len }
    }
}

/// One more byte marks the chunk it lies in, unless it is zero.
proof fn lemma_grown(written: Seq<bool>, at: int, b: Seq<u8>, i: int)
    requires
        0 <= at,
        0 <= i < b.len(),
        0 <= (at + i) / (RAM_CHUNK_BYTES as int) < written.len(),
    ensures
        grown(written, at, b.subrange(0, i + 1)) == (if b[i] != 0 {
            grown(written, at, b.subrange(0, i)).update((at + i) / (RAM_CHUNK_BYTES as int), true)
        } else {
            grown(written, at, b.subrange(0, i))
        }),
{
    let before = b.subrange(0, i);
    let after = b.subrange(0, i + 1);
    let here = (at + i) / (RAM_CHUNK_BYTES as int);
    assert forall|k: int| reaches(at, after, k) <==> reaches(at, before, k) || (b[i] != 0 && k
        == here) by {
        if reaches(at, before, k) {
            let j = choose|j: int|
                0 <= j < before.len() && (#[trigger] before[j]) != 0 && (at + j)
                    / (RAM_CHUNK_BYTES as int) == k;
            assert(after[j] != 0);
        }
        if b[i] != 0 && k == here {
            assert(after[i] != 0);
        }
        if reaches(at, after, k) {
            let j = choose|j: int|
                0 <= j < after.len() && (#[trigger] after[j]) != 0 && (at + j)
                    / (RAM_CHUNK_BYTES as int) == k;
            if j < i {
                assert(before[j] != 0);
            }
        }
    }
    assert(grown(written, at, after) =~= (if b[i] != 0 {
        grown(written, at, before).update(here, true)
    } else {
        grown(written, at, before)
    }));
}

/// Whether every byte is zero.
pub fn is_zero(bytes: &Vec<u8>) -> (r: bool)
    ensures
        r == all_zero(bytes@),
{
    let mut i: usize = 0;
    while i < bytes.len()
        invariant
            i <= bytes@.len(),
            forall|j: int| 0 <= j < i ==> bytes@[j] == 0,
        decreases bytes@.len() - i,
    {
        if bytes[i] != 0 {
            return false;
        }
        i = i + 1;
    }
    true
}

/// A page whose size divides the chunk size lies in one chunk.
pub proof fn lemma_page_in_one_chunk(p: int, page_bytes: int)
    requires
        page_bytes > 0,
        p >= 0,
        (RAM_CHUNK_BYTES as int) % page_bytes == 0,
    ensures
        forall|i: int|
            0 <= i < page_bytes ==> #[trigger] ((p * page_bytes + i) / (RAM_CHUNK_BYTES as int))
                == (p * page_bytes) / (RAM_CHUNK_BYTES as int),
{
    let c = RAM_CHUNK_BYTES as int;
    let q = c / page_bytes;
    vstd::arithmetic::div_mod::lemma_fundamental_div_mod(c, page_bytes);
    assert(q > 0) by (nonlinear_arith)
        requires
            c == page_bytes * q,
            c > 0,
            page_bytes > 0,
    ;
    assert forall|i: int| 0 <= i < page_bytes implies #[trigger] ((p * page_bytes + i) / c) == (p
        * page_bytes) / c by {
        vstd::arithmetic::div_mod::lemma_div_denominator(p * page_bytes + i, page_bytes, q);
        vstd::arithmetic::div_mod::lemma_div_denominator(p * page_bytes, page_bytes, q);
        vstd::arithmetic::div_mod::lemma_fundamental_div_mod_converse(
            p * page_bytes + i,
            page_bytes,
            p,
            i,
        );
        vstd::arithmetic::div_mod::lemma_fundamental_div_mod_converse(
            p * page_bytes,
            page_bytes,
            p,
            0,
        );
    }
}

/// What a store writes, a load of the same width at the same place reads back.
pub proof fn load_after_store(s: Seq<u8>, index: int, value: u64, bytes: u8)
    requires
        0 <= index,
        stored(s, index, value, bytes) is Some,
        value < bytes::limit(bytes as nat),
    ensures
        value_at(stored(s, index, value, bytes)->0, index, bytes) == Some(value),
{
    let digits = bytes::le_bytes(value as nat, bytes as nat);
    bytes::le_value_of_bytes(value as nat, bytes as nat);
    let t = splice(s, index, digits);
    assert(t.subrange(index, index + bytes) =~= digits);
}

/// A store leaves every load of a disjoint range unchanged.
pub proof fn store_keeps_disjoint_loads(
    s: Seq<u8>,
    index: int,
    value: u64,
    bytes: u8,
    other: int,
    other_bytes: u8,
)
    requires
        0 <= index,
        0 <= other,
        stored(s, index, value, bytes) is Some,
        other + other_bytes <= index || index + bytes <= other,
    ensures
        value_at(stored(s, index, value, bytes)->0, other, other_bytes) == value_at(
            s,
            other,
            other_bytes,
        ),
{
    bytes::lemma_le_bytes_len(value as nat, bytes as nat);
    let t = splice(s, index, bytes::le_bytes(value as nat, bytes as nat));
    if 0 < other_bytes <= 8 && other + other_bytes <= s.len() {
        assert(t.subrange(other, other + other_bytes) =~= s.subrange(other, other + other_bytes));
    }
}

} // verus!
