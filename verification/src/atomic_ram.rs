//! Demand-zero RAM shared by the harts, held in 64-bit words.
//!
//! Every granule of 64 bytes counts the stores made to it. A reservation
//! remembers the count it saw; a conditional store goes through only while the
//! count still stands, so that a store to the same granule breaks it and a
//! store elsewhere does not.

use crate::bytes;
use crate::platform::MachineError;
use crate::ram;
use crate::ram::is_zero;
use vstd::prelude::*;

verus! {

pub const ATOMIC_RAM_CHUNK_BYTES: usize = 0x20_0000;

pub const WORD_BYTES: usize = 8;

pub const RESERVATION_GRANULE_BYTES: usize = 64;

// Words and bytes.

/// Byte `k` of a word, least significant first.
pub open spec fn digit(word: u64, k: u64) -> u64 {
    (word >> ((8 * k) as u64)) & 0xff
}

/// The low `count` bytes of a word.
pub open spec fn mask_of(count: u64) -> u64 {
    if count >= 8 {
        0xffff_ffff_ffff_ffff
    } else {
        ((1u64 << ((8 * count) as u64)) - 1) as u64
    }
}

proof fn lemma_masks()
    ensures
        forall|n: u64| 1 <= n <= 8 ==> #[trigger] mask_of(n) + 1 == bytes::limit(n as nat),
{
    assert(mask_of(1) == 0xff && mask_of(2) == 0xffff && mask_of(3) == 0xff_ffff && mask_of(4)
        == 0xffff_ffff && mask_of(5) == 0xff_ffff_ffff && mask_of(6) == 0xffff_ffff_ffff && mask_of(
        7,
    ) == 0xff_ffff_ffff_ffff && mask_of(8) == 0xffff_ffff_ffff_ffff) by (bit_vector);
    reveal_with_fuel(bytes::limit, 9);
}

proof fn lemma_next_digit(word: u64)
    ensures
        word % 256 == digit(word, 0),
        forall|j: u64| 1 <= j < 8 ==> #[trigger] digit(word, j) == digit(word / 256, (j - 1) as u64),
{
    assert(word % 256 == digit(word, 0)) by (bit_vector);
    assert forall|j: u64| 1 <= j < 8 implies #[trigger] digit(word, j) == digit(
        word / 256,
        (j - 1) as u64,
    ) by {
        assert(1 <= j < 8 ==> digit(word, j) == digit(word / 256, (j - 1) as u64)) by (bit_vector);
    }
}

/// The encoded bytes of a word are its digits.
proof fn lemma_le_bytes_digits(word: u64, n: nat)
    requires
        n <= 8,
    ensures
        bytes::le_bytes(word as nat, n).len() == n,
        forall|j: int|
            0 <= j < n ==> #[trigger] bytes::le_bytes(word as nat, n)[j] == digit(
                word,
                j as u64,
            ) as u8,
    decreases n,
{
    if n > 0 {
        lemma_le_bytes_digits(word / 256, (n - 1) as nat);
        lemma_next_digit(word);
        assert forall|j: int| 0 <= j < n implies #[trigger] bytes::le_bytes(word as nat, n)[j]
            == digit(word, j as u64) as u8 by {
            if j > 0 {
                assert(bytes::le_bytes(word as nat, n)[j] == bytes::le_bytes(
                    (word / 256) as nat,
                    (n - 1) as nat,
                )[j - 1]);
            }
        }
    }
}

/// A number whose digits are `s`, and which has no others, is what `s` stands for.
proof fn lemma_value(s: Seq<u8>, value: u64)
    requires
        1 <= s.len() <= 8,
        value <= mask_of(s.len() as u64),
        forall|j: int| 0 <= j < s.len() ==> s[j] == digit(value, j as u64) as u8,
    ensures
        bytes::le_value(s) == value,
{
    lemma_masks();
    lemma_le_bytes_digits(value, s.len());
    bytes::le_value_of_bytes(value as nat, s.len());
    assert(s =~= bytes::le_bytes(value as nat, s.len()));
}

proof fn lemma_extract(word: u64, at: u64, n: u64, j: u64)
    requires
        1 <= n <= 8,
        at + n <= 8,
        j < n,
    ensures
        (word >> ((8 * at) as u64)) & mask_of(n) <= mask_of(n),
        digit((word >> ((8 * at) as u64)) & mask_of(n), j) == digit(word, (at + j) as u64),
{
    assert(1 <= n <= 8 && at + n <= 8 && j < n ==> (word >> ((8 * at) as u64)) & mask_of(n)
        <= mask_of(n) && digit((word >> ((8 * at) as u64)) & mask_of(n), j) == digit(
        word,
        (at + j) as u64,
    )) by (bit_vector);
}

/// Two words read as one number.
pub open spec fn joined(first: u64, second: u64, at: u64, n: u64) -> u64 {
    ((first >> ((8 * at) as u64)) & mask_of((8 - at) as u64)) | ((second & mask_of(
        (n - (8 - at)) as u64,
    )) << ((8 * (8 - at)) as u64))
}

proof fn lemma_join(first: u64, second: u64, at: u64, n: u64, j: u64)
    requires
        1 <= n <= 8,
        1 <= at < 8,
        at + n > 8,
        j < n,
    ensures
        joined(first, second, at, n) <= mask_of(n),
        digit(joined(first, second, at, n), j) == (if at + j < 8 {
            digit(first, (at + j) as u64)
        } else {
            digit(second, (at + j - 8) as u64)
        }),
{
    assert(1 <= n <= 8 && 1 <= at < 8 && at + n > 8 && j < n ==> joined(first, second, at, n)
        <= mask_of(n) && digit(joined(first, second, at, n), j) == (if at + j < 8 {
        digit(first, (at + j) as u64)
    } else {
        digit(second, (at + j - 8) as u64)
    })) by (bit_vector);
}

/// A word after a store of the low `n` bytes of `value` at byte `at`.
pub open spec fn merged(word: u64, value: u64, at: u64, n: u64) -> u64 {
    (word & !(mask_of(n) << ((8 * at) as u64))) | ((value << ((8 * at) as u64)) & (mask_of(n) << ((8
        * at) as u64)))
}

proof fn lemma_merge(word: u64, value: u64, at: u64, n: u64, k: u64)
    requires
        1 <= n <= 8,
        at + n <= 8,
        k < 8,
    ensures
        digit(merged(word, value, at, n), k) == (if at <= k < at + n {
            digit(value, (k - at) as u64)
        } else {
            digit(word, k)
        }),
{
    assert(1 <= n <= 8 && at + n <= 8 && k < 8 ==> digit(merged(word, value, at, n), k) == (if at
        <= k < at + n {
        digit(value, (k - at) as u64)
    } else {
        digit(word, k)
    })) by (bit_vector);
}


fn byte_mask(count: usize) -> (r: u64)
    requires
        1 <= count <= WORD_BYTES,
    ensures
        r == mask_of(count as u64),
{
    if count == WORD_BYTES {
        0xffff_ffff_ffff_ffff
    } else {
        let bits: u64 = 8 * count as u64;
        assert(bits < 64 ==> 1u64 << bits >= 1) by (bit_vector);
        (1u64 << bits) - 1
    }
}

// Chunks.

/// One chunk: its words, and the number of stores made to each granule, in
/// steps of two.
#[derive(Debug)]
pub struct AtomicRamChunk {
    pub words: Vec<u64>,
    pub write_generations: Vec<u64>,
}

/// The bytes that words stand for.
pub open spec fn word_bytes(words: Seq<u64>) -> Seq<u8> {
    Seq::new(8 * words.len(), |i: int| digit(words[i / 8], (i % 8) as u64) as u8)
}

/// Whether a range of `n` bytes at `offset` lies in one word.
pub open spec fn in_one_word(offset: int, n: int) -> bool {
    0 < n <= 8 && offset % 8 + n <= 8
}

/// Number of units of `size` that hold `total` bytes.
pub open spec fn units(total: int, size: int) -> int {
    (total + size - 1) / size
}

fn unit_count(total: usize, size: usize) -> (r: usize)
    requires
        size > 0,
        total <= ATOMIC_RAM_CHUNK_BYTES || size == ATOMIC_RAM_CHUNK_BYTES,
    ensures
        r == units(total as int, size as int),
{
    let whole: usize = total / size;
    let rest: usize = total % size;
    proof {
        vstd::arithmetic::div_mod::lemma_fundamental_div_mod(total as int, size as int);
        if rest == 0 {
            vstd::arithmetic::div_mod::lemma_fundamental_div_mod_converse(
                total + size - 1,
                size as int,
                whole as int,
                size - 1,
            );
        } else {
            vstd::arithmetic::mul::lemma_mul_is_distributive_add(
                size as int,
                whole as int,
                1,
            );
            vstd::arithmetic::div_mod::lemma_fundamental_div_mod_converse(
                total + size - 1,
                size as int,
                whole + 1,
                rest - 1,
            );
            assert(whole + 1 <= total) by (nonlinear_arith)
                requires
                    total == size * whole + rest,
                    size >= 1,
                    rest >= 1,
                    whole >= 0,
            ;
        }
    }
    if rest == 0 {
        whole
    } else {
        whole + 1
    }
}

impl AtomicRamChunk {
    pub open spec fn bytes(&self) -> Seq<u8> {
        word_bytes(self.words@)
    }

    /// No store is under way.
    pub open spec fn quiescent(&self) -> bool {
        forall|g: int|
            0 <= g < self.write_generations@.len() ==> #[trigger] self.write_generations@[g] % 2
                == 0
    }

    /// Whether an access can go through the word and the granule at `offset`.
    pub open spec fn reaches(&self, offset: int, n: int) -> bool {
        &&& in_one_word(offset, n)
        &&& offset / 8 < self.words@.len()
        &&& offset / 64 < self.write_generations@.len()
    }

    /// The chunk after a store of `value`.
    pub open spec fn store_spec(&self, after: &Self, offset: int, value: u64, n: int) -> bool {
        &&& after.bytes() == ram::splice(
            self.bytes(),
            offset,
            bytes::le_bytes(value as nat, n as nat),
        )
        &&& after.words@.len() == self.words@.len()
        &&& after.write_generations@ == self.write_generations@.update(
            offset / 64,
            self.write_generations@[offset / 64].wrapping_add(2),
        )
    }

    /// A chunk of `total` zero bytes that no store has reached.
    pub open spec fn untouched(&self, total: int) -> bool {
        &&& self.words@ == Seq::new(units(total, 8) as nat, |i: int| 0u64)
        &&& self.write_generations@ == Seq::new(units(total, 64) as nat, |i: int| 0u64)
    }

    /// A zeroed chunk. Only the allocator can refuse it: it is asked for the
    /// words and for the store counts.
    pub fn zeroed(total: usize) -> (r: Result<Self, MachineError>)
        requires
            total <= ATOMIC_RAM_CHUNK_BYTES,
        ensures
            r matches Err(error) ==> error == MachineError::RamAllocationDenied(total),
            r matches Ok(chunk) ==> chunk.untouched(total as int),
    {
        let mut words: Vec<u64> = Vec::new();
        let mut reserved: bool = words.try_reserve(unit_count(total, WORD_BYTES)).is_ok();
        let mut write_generations: Vec<u64> = Vec::new();
        if reserved {
            reserved =
            write_generations.try_reserve(unit_count(total, RESERVATION_GRANULE_BYTES)).is_ok();
        }
        AtomicRamChunk::admitted(words, write_generations, reserved, total)
    }

    /// A zeroed chunk in the given empty tables, once the allocator has said
    /// whether it reserved their places.
    pub fn admitted(
        words: Vec<u64>,
        write_generations: Vec<u64>,
        reserved: bool,
        total: usize,
    ) -> (r: Result<Self, MachineError>)
        requires
            total <= ATOMIC_RAM_CHUNK_BYTES,
            words@.len() == 0,
            write_generations@.len() == 0,
        ensures
            reserved ==> r is Ok && r->Ok_0.untouched(total as int),
            !reserved ==> r == Err::<Self, _>(MachineError::RamAllocationDenied(total)),
    {
        if !reserved {
            return Err(MachineError::RamAllocationDenied(total));
        }
        let mut words = words;
        let mut write_generations = write_generations;
        words.resize(unit_count(total, WORD_BYTES), 0);
        write_generations.resize(unit_count(total, RESERVATION_GRANULE_BYTES), 0);
        assert(words@ =~= Seq::new(units(total as int, 8) as nat, |i: int| 0u64));
        assert(write_generations@ =~= Seq::new(units(total as int, 64) as nat, |i: int| 0u64));
        Ok(AtomicRamChunk { words, write_generations })
    }

    /// An exact copy.
    pub fn clone_quiescent(&self) -> (r: Self)
        ensures
            r.words@ == self.words@,
            r.write_generations@ == self.write_generations@,
    {
        AtomicRamChunk {
            words: copy_words(&self.words),
            write_generations: copy_words(&self.write_generations),
        }
    }

    /// Zeroes the words and forgets the stores.
    pub fn clear_quiescent(&mut self)
        ensures
            final(self).words@ == Seq::new(old(self).words@.len(), |i: int| 0u64),
            final(self).write_generations@ == Seq::new(
                old(self).write_generations@.len(),
                |i: int| 0u64,
            ),
    {
        clear_words(&mut self.words);
        clear_words(&mut self.write_generations);
    }

    pub fn read_value(&self, offset: usize, bytes: u8) -> (r: Option<u64>)
        ensures
            r == ram::value_at(self.bytes(), offset as int, bytes),
    {
        let count: usize = bytes as usize;
        let word_index: usize = offset / WORD_BYTES;
        let word_offset: usize = offset % WORD_BYTES;
        if count == 0 || count > WORD_BYTES || word_index >= self.words.len() {
            return None;
        }
        let ghost s = self.bytes().subrange(offset as int, offset + count);
        if word_offset + count <= WORD_BYTES {
            let word: u64 = self.words[word_index];
            let shift: u64 = 8 * word_offset as u64;
            let value: u64 = (word >> shift) & byte_mask(count);
            proof {
                assert forall|j: int| 0 <= j < count implies s[j] == digit(
                    value,
                    j as u64,
                ) as u8 by {
                    lemma_extract(word, word_offset as u64, count as u64, j as u64);
                    assert((offset + j) / 8 == word_index);
                    assert((offset + j) % 8 == word_offset + j);
                }
                lemma_extract(word, word_offset as u64, count as u64, 0);
                lemma_value(s, value);
            }
            return Some(value);
        }
        if word_index + 1 >= self.words.len() {
            return None;
        }
        let first: u64 = self.words[word_index];
        let second: u64 = self.words[word_index + 1];
        let first_bytes: usize = WORD_BYTES - word_offset;
        let first_value: u64 = (first >> (8 * word_offset as u64)) & byte_mask(first_bytes);
        let second_bytes: usize = count - first_bytes;
        let value: u64 = first_value | ((second & byte_mask(second_bytes)) << (8
            * first_bytes as u64));
        proof {
            assert(value == joined(first, second, word_offset as u64, count as u64));
            assert forall|j: int| 0 <= j < count implies s[j] == digit(value, j as u64) as u8 by {
                lemma_join(first, second, word_offset as u64, count as u64, j as u64);
                if word_offset + j < 8 {
                    assert((offset + j) / 8 == word_index);
                    assert((offset + j) % 8 == word_offset + j);
                } else {
                    assert((offset + j) / 8 == word_index + 1);
                    assert((offset + j) % 8 == word_offset + j - 8);
                }
            }
            lemma_join(first, second, word_offset as u64, count as u64, 0);
            lemma_value(s, value);
        }
        Some(value)
    }

    /// Puts the low `count` bytes of `value` into the word at `offset`.
    fn merge(&mut self, offset: usize, value: u64, count: usize)
        requires
            in_one_word(offset as int, count as int),
            offset / 8 < old(self).words@.len(),
        ensures
            final(self).bytes() == ram::splice(
                old(self).bytes(),
                offset as int,
                bytes::le_bytes(value as nat, count as nat),
            ),
            final(self).words@.len() == old(self).words@.len(),
            final(self).write_generations@ == old(self).write_generations@,
    {
        let word_index: usize = offset / WORD_BYTES;
        let word_offset: usize = offset % WORD_BYTES;
        let shift: u64 = 8 * word_offset as u64;
        let mask: u64 = byte_mask(count) << shift;
        let old_word: u64 = self.words[word_index];
        self.words[word_index] = (old_word & !mask) | ((value << shift) & mask);
        proof {
            let digits = bytes::le_bytes(value as nat, count as nat);
            let after = ram::splice(old(self).bytes(), offset as int, digits);
            let at = word_offset as u64;
            let n = count as u64;
            lemma_le_bytes_digits(value, count as nat);
            assert forall|i: int| 0 <= i < self.bytes().len() implies self.bytes()[i]
                == after[i] by {
                let k = (i % 8) as u64;
                lemma_merge(old_word, value, at, n, k);
                if i / 8 == word_index {
                    assert(i == 8 * word_index + k);
                    assert(offset == 8 * word_index + at);
                    if offset <= i < offset + count {
                        assert(after[i] == digits[i - offset]);
                    }
                }
            }
            assert(self.bytes() =~= after);
        }
    }

    /// Counts one store to the granule at `offset`.
    fn bump(&mut self, offset: usize)
        requires
            offset / 64 < old(self).write_generations@.len(),
        ensures
            final(self).words@ == old(self).words@,
            final(self).write_generations@ == old(self).write_generations@.update(
                offset as int / 64,
                old(self).write_generations@[offset as int / 64].wrapping_add(2),
            ),
    {
        let granule: usize = offset / RESERVATION_GRANULE_BYTES;
        let observed: u64 = self.write_generations[granule];
        self.write_generations[granule] = observed.wrapping_add(2);
    }

    pub fn write_value(&mut self, offset: usize, value: u64, bytes: u8) -> (r: bool)
        ensures
            r == old(self).reaches(offset as int, bytes as int),
            r ==> old(self).store_spec(final(self), offset as int, value, bytes as int),
            !r ==> *final(self) == *old(self),
    {
        let count: usize = bytes as usize;
        if count == 0 || count > WORD_BYTES || offset % WORD_BYTES + count > WORD_BYTES {
            return false;
        }
        if offset / WORD_BYTES >= self.words.len() || offset / RESERVATION_GRANULE_BYTES
            >= self.write_generations.len() {
            return false;
        }
        self.merge(offset, value, count);
        self.bump(offset);
        true
    }

    /// The value at `offset` with the number of stores seen in its granule.
    pub fn load_reserved(&self, offset: usize, bytes: u8) -> (r: Option<(u64, u64)>)
        ensures
            r == (if self.reaches(offset as int, bytes as int) && offset as int % (bytes as int)
                == 0 {
                Some(
                    (
                        ram::value_at(self.bytes(), offset as int, bytes)->0,
                        self.write_generations@[offset as int / 64],
                    ),
                )
            } else {
                None
            }),
    {
        let count: usize = bytes as usize;
        if count == 0 || count > WORD_BYTES || offset % WORD_BYTES + count > WORD_BYTES || offset
            % count != 0 {
            return None;
        }
        if offset / RESERVATION_GRANULE_BYTES >= self.write_generations.len() {
            return None;
        }
        let generation: u64 = self.write_generations[offset / RESERVATION_GRANULE_BYTES];
        match self.read_value(offset, bytes) {
            Some(value) => Some((value, generation)),
            None => None,
        }
    }

    pub fn store_conditional(
        &mut self,
        offset: usize,
        value: u64,
        bytes: u8,
        expected_generation: u64,
    ) -> (r: bool)
        ensures
            r == (old(self).reaches(offset as int, bytes as int) && offset as int % (bytes as int)
                == 0 && expected_generation % 2 == 0 && old(
                self,
            ).write_generations@[offset as int / 64] == expected_generation),
            r ==> old(self).store_spec(final(self), offset as int, value, bytes as int),
            !r ==> *final(self) == *old(self),
    {
        let count: usize = bytes as usize;
        if expected_generation % 2 != 0 || count == 0 || count > WORD_BYTES || offset % WORD_BYTES
            + count > WORD_BYTES || offset % count != 0 {
            return false;
        }
        if offset / WORD_BYTES >= self.words.len() || offset / RESERVATION_GRANULE_BYTES
            >= self.write_generations.len() {
            return false;
        }
        if self.write_generations[offset / RESERVATION_GRANULE_BYTES] != expected_generation {
            return false;
        }
        self.merge(offset, value, count);
        self.bump(offset);
        true
    }

    /// Replaces the value at `offset` by a function of it and gives the former
    /// value.
    pub fn update_value<F: FnOnce(u64) -> u64>(
        &mut self,
        offset: usize,
        value: F,
        bytes: u8,
    ) -> (r: Option<u64>)
        requires
            forall|v: u64| call_requires(value, (v,)),
        ensures
            r == (if old(self).reaches(offset as int, bytes as int) && offset as int % (
            bytes as int) == 0 {
                ram::value_at(old(self).bytes(), offset as int, bytes)
            } else {
                None
            }),
            r matches Some(before) ==> exists|new: u64|
                call_ensures(value, (before,), new) && #[trigger] old(self).store_spec(
                    final(self),
                    offset as int,
                    new,
                    bytes as int,
                ),
            r is None ==> *final(self) == *old(self),
    {
        let count: usize = bytes as usize;
        if count == 0 || count > WORD_BYTES || offset % WORD_BYTES + count > WORD_BYTES || offset
            % count != 0 {
            return None;
        }
        if offset / RESERVATION_GRANULE_BYTES >= self.write_generations.len() {
            return None;
        }
        match self.read_value(offset, bytes) {
            None => None,
            Some(before) => {
                let new: u64 = value(before);
                self.merge(offset, new, count);
                self.bump(offset);
                assert(old(self).store_spec(self, offset as int, new, bytes as int));
                Some(before)
            },
        }
    }

    pub fn read_byte(&self, offset: usize) -> (r: Option<u8>)
        ensures
            r == (if offset < self.bytes().len() {
                Some(self.bytes()[offset as int])
            } else {
                None
            }),
    {
        match self.read_value(offset, 1) {
            Some(value) => {
                proof {
                    let s = self.bytes().subrange(offset as int, offset + 1);
                    reveal_with_fuel(bytes::le_value, 2);
                    assert(s[0] == self.bytes()[offset as int]);
                    assert(value == s[0]);
                }
                Some(value as u8)
            },
            None => None,
        }
    }

    /// Copies bytes in without counting a store.
    pub fn write_bytes_quiescent(&mut self, offset: usize, bytes: &[u8]) -> (r: bool)
        requires
            8 * old(self).words@.len() <= ATOMIC_RAM_CHUNK_BYTES,
        ensures
            r == (offset + bytes@.len() <= old(self).bytes().len()),
            r ==> final(self).bytes() == ram::splice(old(self).bytes(), offset as int, bytes@),
            !r ==> final(self).bytes() == old(self).bytes(),
            final(self).words@.len() == old(self).words@.len(),
            final(self).write_generations@ == old(self).write_generations@,
    {
        let length: usize = bytes.len();
        let room: usize = self.words.len() * WORD_BYTES;
        if offset > room || room - offset < length {
            return false;
        }
        let mut i: usize = 0;
        assert(self.bytes() =~= ram::splice(old(self).bytes(), offset as int, bytes@.take(0)));
        while i < length
            invariant
                i <= length == bytes@.len(),
                self.words@.len() == old(self).words@.len(),
                offset + length <= 8 * self.words@.len(),
                8 * self.words@.len() <= ATOMIC_RAM_CHUNK_BYTES,
                self.write_generations@ == old(self).write_generations@,
                self.bytes() == ram::splice(
                    old(self).bytes(),
                    offset as int,
                    bytes@.take(i as int),
                ),
            decreases length - i,
        {
            self.merge(offset + i, bytes[i] as u64, 1);
            proof {
                lemma_le_bytes_digits(bytes@[i as int] as u64, 1);
                lemma_next_digit(bytes@[i as int] as u64);
                assert(self.bytes() =~= ram::splice(
                    old(self).bytes(),
                    offset as int,
                    bytes@.take(i + 1),
                ));
            }
            i = i + 1;
        }
        assert(bytes@.take(length as int) =~= bytes@);
        true
    }
}

fn copy_words(source: &Vec<u64>) -> (r: Vec<u64>)
    ensures
        r@ == source@,
{
    let mut out: Vec<u64> = Vec::new();
    let mut i: usize = 0;
    while i < source.len()
        invariant
            i <= source@.len(),
            out@ == source@.take(i as int),
        decreases source@.len() - i,
    {
        out.push(source[i]);
        i = i + 1;
        assert(out@ =~= source@.take(i as int));
    }
    assert(source@.take(source@.len() as int) =~= source@);
    out
}

fn clear_words(words: &mut Vec<u64>)
    ensures
        final(words)@ == Seq::new(old(words)@.len(), |i: int| 0u64),
{
    let mut i: usize = 0;
    while i < words.len()
        invariant
            i <= words@.len(),
            words@.len() == old(words)@.len(),
            forall|k: int| 0 <= k < i ==> words@[k] == 0,
        decreases words@.len() - i,
    {
        words[i] = 0;
        i = i + 1;
    }
    assert(words@ =~= Seq::new(old(words)@.len(), |k: int| 0u64));
}


// The shared RAM.

/// A place for a chunk: not needed yet, there, or refused by the allocator.
#[derive(Debug)]
pub enum Slot {
    Unset,
    Held(AtomicRamChunk),
    Denied,
}

/// What a load saw, to be shown by the conditional store that follows it.
#[derive(Clone, Copy, Debug, PartialEq, Eq, Structural)]
pub struct AtomicReservation {
    pub index: usize,
    pub bytes: u8,
    pub generation: u64,
}

pub enum SlotState {
    Unset,
    Held,
    Denied,
}

/// What the shared RAM holds: its bytes, the stores counted in each granule,
/// and which chunks exist.
#[verifier::ext_equal]
pub struct AtomicRamView {
    pub bytes: Seq<u8>,
    pub generations: Seq<u64>,
    pub slots: Seq<SlotState>,
}

/// Contiguous guest RAM whose unwritten chunks take no memory.
#[derive(Debug)]
pub struct AtomicGuestRam {
    pub chunks: Vec<Slot>,
    pub len: usize,
}

pub open spec fn slot_state(slot: Slot) -> SlotState {
    match slot {
        Slot::Unset => SlotState::Unset,
        Slot::Held(_) => SlotState::Held,
        Slot::Denied => SlotState::Denied,
    }
}

pub open spec fn slot_byte(slot: Slot, offset: int) -> u8 {
    match slot {
        Slot::Held(chunk) => chunk.bytes()[offset],
        _ => 0,
    }
}

pub open spec fn slot_generation(slot: Slot, granule: int) -> u64 {
    match slot {
        Slot::Held(chunk) => chunk.write_generations@[granule],
        _ => 0,
    }
}

pub open spec fn slot_wf(slot: Slot, len: int, k: int) -> bool {
    match slot {
        Slot::Held(chunk) => {
            &&& chunk.words@.len() == units(chunk_len(len, k), 8)
            &&& chunk.write_generations@.len() == units(chunk_len(len, k), 64)
            &&& chunk.quiescent()
        },
        _ => true,
    }
}

/// Bytes of RAM that a chunk holds.
pub open spec fn chunk_len(len: int, chunk: int) -> int {
    if len - chunk * 0x20_0000 < 0x20_0000 {
        len - chunk * 0x20_0000
    } else {
        0x20_0000
    }
}

/// The chunk of an address.
pub open spec fn chunk_of(index: int) -> int {
    index / 0x20_0000
}

/// The place of an address in its chunk.
pub open spec fn offset_of(index: int) -> int {
    index % 0x20_0000
}

/// A range of one to eight bytes inside the RAM, at a multiple of its length.
pub open spec fn aligned_range(len: int, index: int, n: int) -> bool {
    0 < n <= 8 && index + n <= len && index % n == 0
}

impl AtomicRamView {
    pub open spec fn slot(self, index: int) -> SlotState {
        self.slots[chunk_of(index)]
    }

    /// The chunk at `index` made to exist.
    pub open spec fn materialized(self, index: int) -> AtomicRamView {
        AtomicRamView { slots: self.slots.update(chunk_of(index), SlotState::Held), ..self }
    }

    /// The chunk at `index` found to be refused.
    pub open spec fn refused(self, index: int) -> AtomicRamView {
        AtomicRamView { slots: self.slots.update(chunk_of(index), SlotState::Denied), ..self }
    }

    /// The RAM after a counted store.
    pub open spec fn counted_store(self, index: int, value: u64, n: int) -> AtomicRamView {
        AtomicRamView {
            bytes: ram::splice(self.bytes, index, bytes::le_bytes(value as nat, n as nat)),
            generations: self.generations.update(
                index / 64,
                self.generations[index / 64].wrapping_add(2),
            ),
            slots: self.slots,
        }
    }

    /// A plain store and its answer. A store of zeroes to a chunk that does not
    /// exist needs none.
    pub open spec fn write_spec(
        self,
        after: AtomicRamView,
        done: bool,
        index: int,
        value: u64,
        n: int,
    ) -> bool {
        if !aligned_range(self.bytes.len() as int, index, n) || offset_of(index) + n > 0x20_0000 {
            !done && after == self
        } else if value & mask_of(n as u64) == 0 && self.slot(index) is Unset {
            done && after == self
        } else if done {
            &&& in_one_word(index, n)
            &&& !(self.slot(index) is Denied)
            &&& after == self.materialized(index).counted_store(index, value, n)
        } else {
            self.asked(after, index) && (after.slot(index) is Denied || !in_one_word(index, n))
        }
    }

    /// Whether a chunk that exists takes a reserved access at `index`.
    pub open spec fn reservable(self, index: int, n: int) -> bool {
        in_one_word(index, n) && offset_of(index) % n == 0
    }

    /// The value that a reserving load gives, with what it saw.
    pub open spec fn reserve_spec(self, index: usize, bytes: u8) -> Option<
        (u64, AtomicReservation),
    > {
        let reservation = AtomicReservation {
            index,
            bytes,
            generation: self.generations[index as int / 64],
        };
        if !aligned_range(self.bytes.len() as int, index as int, bytes as int) {
            None
        } else {
            match self.slot(index as int) {
                SlotState::Unset => Some((0, reservation)),
                SlotState::Held => if self.reservable(index as int, bytes as int) {
                    Some((ram::value_at(self.bytes, index as int, bytes)->0, reservation))
                } else {
                    None
                },
                SlotState::Denied => None,
            }
        }
    }

    /// A conditional store and its answer.
    pub open spec fn conditional_spec(
        self,
        after: AtomicRamView,
        done: bool,
        reservation: AtomicReservation,
        index: usize,
        value: u64,
        bytes: u8,
    ) -> bool {
        if reservation.index != index || reservation.bytes != bytes || !aligned_range(
            self.bytes.len() as int,
            index as int,
            bytes as int,
        ) {
            !done && after == self
        } else if done {
            &&& self.reservable(index as int, bytes as int)
            &&& !(self.slot(index as int) is Denied)
            &&& reservation.generation == self.generations[index as int / 64]
            &&& after == self.materialized(index as int).counted_store(
                index as int,
                value,
                bytes as int,
            )
        } else {
            &&& self.asked(after, index as int)
            &&& after.slot(index as int) is Denied || !self.reservable(
                index as int,
                bytes as int,
            ) || reservation.generation != self.generations[index as int / 64]
        }
    }

    /// The RAM once the chunk at `index` was asked for: it exists, or the
    /// allocator refused it. A chunk asked for before stays as it is.
    pub open spec fn asked(self, after: AtomicRamView, index: int) -> bool {
        match self.slot(index) {
            SlotState::Unset => after == self.materialized(index) || after == self.refused(index),
            _ => after == self,
        }
    }
}

impl AtomicGuestRam {
    pub open spec fn view(&self) -> AtomicRamView {
        AtomicRamView {
            bytes: Seq::new(
                self.len as nat,
                |i: int| slot_byte(self.chunks@[chunk_of(i)], offset_of(i)),
            ),
            generations: Seq::new(
                units(self.len as int, 64) as nat,
                |g: int| slot_generation(self.chunks@[g / 0x8000], g % 0x8000),
            ),
            slots: Seq::new(self.chunks@.len(), |k: int| slot_state(self.chunks@[k])),
        }
    }

    pub open spec fn wf(&self) -> bool {
        &&& self.chunks@.len() == units(self.len as int, 0x20_0000)
        &&& forall|k: int|
            0 <= k < self.chunks@.len() ==> slot_wf(#[trigger] self.chunks@[k], self.len as int, k)
    }

    /// RAM of `len` zero bytes that no store has reached.
    pub open spec fn untouched(&self, len: int) -> bool {
        &&& self.wf()
        &&& self.len == len
        &&& self@.bytes == ram::zeros(len as nat)
        &&& forall|g: int|
            0 <= g < self@.generations.len() ==> #[trigger] self@.generations[g] == 0
        &&& forall|k: int| 0 <= k < self@.slots.len() ==> (#[trigger] self@.slots[k]) is Unset
    }

    /// Zeroed RAM. Only the allocator can refuse it: it is asked for one slot
    /// for each chunk.
    pub fn zeroed(len: usize) -> (r: Result<Self, MachineError>)
        ensures
            r matches Err(error) ==> error == MachineError::RamAllocationDenied(len),
            r matches Ok(ram) ==> ram.untouched(len as int),
    {
        let mut slots: Vec<Slot> = Vec::new();
        let reserved: bool = slots.try_reserve(unit_count(len, ATOMIC_RAM_CHUNK_BYTES)).is_ok();
        AtomicGuestRam::admitted(slots, reserved, len)
    }

    /// Zeroed RAM in the given empty table, once the allocator has said whether
    /// it reserved the table's slots.
    pub fn admitted(slots: Vec<Slot>, reserved: bool, len: usize) -> (r: Result<Self, MachineError>)
        requires
            slots@.len() == 0,
        ensures
            reserved ==> r is Ok && r->Ok_0.untouched(len as int),
            !reserved ==> r == Err::<Self, _>(MachineError::RamAllocationDenied(len)),
    {
        if !reserved {
            return Err(MachineError::RamAllocationDenied(len));
        }
        let count: usize = unit_count(len, ATOMIC_RAM_CHUNK_BYTES);
        let mut chunks = slots;
        let mut i: usize = 0;
        while i < count
            invariant
                i <= count,
                chunks@.len() == i,
                forall|k: int| 0 <= k < i ==> (#[trigger] chunks@[k]) is Unset,
            decreases count - i,
        {
            chunks.push(Slot::Unset);
            i = i + 1;
        }
        let ram = AtomicGuestRam { chunks, len };
        assert forall|j: int| 0 <= j < len implies ram@.bytes[j] == 0 by {
            assert(0 <= chunk_of(j) < count);
        }
        assert forall|g: int| 0 <= g < ram@.generations.len() implies #[trigger] ram@.generations[g]
            == 0 by {
            assert(0 <= g / 0x8000 < count);
        }
        assert(ram@.bytes =~= ram::zeros(len as nat));
        Ok(ram)
    }

    pub fn byte(&self, index: usize) -> (r: Option<u8>)
        requires
            self.wf(),
        ensures
            r == (if index < self.len && !(self@.slot(index as int) is Denied) {
                Some(self@.bytes[index as int])
            } else {
                None
            }),
    {
        if index >= self.len {
            return None;
        }
        let chunk_index: usize = index / ATOMIC_RAM_CHUNK_BYTES;
        let chunk_offset: usize = index % ATOMIC_RAM_CHUNK_BYTES;
        match &self.chunks[chunk_index] {
            Slot::Unset => Some(0),
            Slot::Held(chunk) => {
                assert(slot_wf(self.chunks@[chunk_index as int], self.len as int, chunk_index as int));
                chunk.read_byte(chunk_offset)
            },
            Slot::Denied => None,
        }
    }

    /// Little-endian number at `index`; none where a chunk of it was refused.
    pub fn read_value(&self, index: usize, bytes: u8) -> (r: Option<u64>)
        requires
            self.wf(),
        ensures
            r == (if ram::value_at(self@.bytes, index as int, bytes) is Some && !(self@.slot(
                index as int,
            ) is Denied) && !(self@.slot(index + bytes - 1) is Denied) {
                ram::value_at(self@.bytes, index as int, bytes)
            } else {
                None
            }),
    {
        let count: usize = bytes as usize;
        if count == 0 || count > WORD_BYTES || index > self.len || self.len - index < count {
            return None;
        }
        let chunk_index: usize = index / ATOMIC_RAM_CHUNK_BYTES;
        let chunk_offset: usize = index % ATOMIC_RAM_CHUNK_BYTES;
        let ghost wanted = self@.bytes.subrange(index as int, index + count);
        if chunk_offset + count <= ATOMIC_RAM_CHUNK_BYTES {
            assert(chunk_of(index + count - 1) == chunk_index);
            match &self.chunks[chunk_index] {
                Slot::Unset => {
                    proof {
                        assert forall|j: int| 0 <= j < count implies wanted[j] == digit(
                            0,
                            j as u64,
                        ) as u8 by {
                            assert(chunk_of(index + j) == chunk_index);
                            assert(digit(0, j as u64) == 0) by {
                                lemma_zero_digit(j as u64);
                            }
                        }
                        lemma_value(wanted, 0);
                    }
                    return Some(0);
                },
                Slot::Held(chunk) => {
                    proof {
                        assert(slot_wf(
                            self.chunks@[chunk_index as int],
                            self.len as int,
                            chunk_index as int,
                        ));
                        assert forall|j: int| 0 <= j < count implies wanted[j]
                            == chunk.bytes()[chunk_offset + j] by {
                            assert(chunk_of(index + j) == chunk_index);
                            assert(offset_of(index + j) == chunk_offset + j);
                        }
                        assert(wanted =~= chunk.bytes().subrange(
                            chunk_offset as int,
                            chunk_offset + count,
                        ));
                    }
                    return chunk.read_value(chunk_offset, bytes);
                },
                Slot::Denied => {
                    return None;
                },
            }
        }
        let mut value: u64 = 0;
        let mut i: usize = count;
        while i > 0
            invariant
                self.wf(),
                i <= count <= 8,
                index + count <= self.len,
                count == bytes,
                chunk_of(index as int) + 1 == chunk_of(index + count - 1),
                value == bytes::le_value(self@.bytes.subrange(index + i, index + count)),
                i < count ==> !(self@.slot(index + count - 1) is Denied),
                forall|j: int|
                    i <= j < count ==> !((#[trigger] self@.slots[chunk_of(index + j)]) is Denied),
            decreases i,
        {
            let ghost tail = self@.bytes.subrange(index + i, index + count);
            proof {
                bytes::lemma_le_value_bound(tail);
                bytes::lemma_limit_monotone(tail.len() + 1, 8);
                bytes::lemma_limits();
                assert(self@.bytes.subrange(index + i - 1, index + count).drop_first() =~= tail);
            }
            i = i - 1;
            let byte: u8 = match self.byte(index + i) {
                Some(byte) => byte,
                None => {
                    assert(chunk_of(index + i) == chunk_of(index as int) || chunk_of(index + i)
                        == chunk_of(index + count - 1));
                    return None;
                },
            };
            value = value * 256 + (byte as u64);
        }
        assert(!(self@.slots[chunk_of(index + 0)] is Denied));
        Some(value)
    }
}

impl AtomicGuestRam {
    /// Asks for a chunk.
    fn chunk(&mut self, chunk_index: usize) -> (r: bool)
        requires
            old(self).wf(),
            chunk_index < old(self).chunks@.len(),
        ensures
            final(self).wf(),
            final(self).len == old(self).len,
            final(self).chunks@.len() == old(self).chunks@.len(),
            old(self)@.asked(final(self)@, chunk_index * 0x20_0000),
            r == (final(self).chunks@[chunk_index as int] is Held),
            forall|k: int|
                0 <= k < old(self).chunks@.len() && k != chunk_index ==> final(self).chunks@[k]
                    == old(self).chunks@[k],
    {
        match &self.chunks[chunk_index] {
            Slot::Held(_) => {
                return true;
            },
            Slot::Denied => {
                return false;
            },
            Slot::Unset => {},
        }
        proof {
            lemma_chunk_bounds(self.len as int, chunk_index as int);
        }
        let start: usize = chunk_index * ATOMIC_RAM_CHUNK_BYTES;
        let length: usize = if self.len - start < ATOMIC_RAM_CHUNK_BYTES {
            self.len - start
        } else {
            ATOMIC_RAM_CHUNK_BYTES
        };
        let ghost before = *self;
        match AtomicRamChunk::zeroed(length) {
            Ok(chunk) => {
                self.chunks[chunk_index] = Slot::Held(chunk);
                proof {
                    let index = chunk_index * 0x20_0000;
                    assert forall|j: int| 0 <= j < self.len implies self@.bytes[j]
                        == before@.bytes[j] by {
                        if chunk_of(j) == chunk_index {
                            lemma_zero_digit((offset_of(j) % 8) as u64);
                            assert(offset_of(j) / 8 < units(length as int, 8));
                        }
                    }
                    assert forall|g: int| 0 <= g < self@.generations.len() implies #[trigger] self@.generations[g]
                        == before@.generations[g] by {
                        if g / 0x8000 == chunk_index {
                            assert(g % 0x8000 < units(length as int, 64));
                        }
                    }
                    assert(self@ =~= before@.materialized(index));
                }
                true
            },
            Err(_) => {
                self.chunks[chunk_index] = Slot::Denied;
                assert(self@ =~= before@.refused(chunk_index * 0x20_0000));
                false
            },
        }
    }

    pub fn write_value(&mut self, index: usize, value: u64, bytes: u8) -> (r: bool)
        requires
            old(self).wf(),
        ensures
            final(self).wf(),
            final(self).len == old(self).len,
            old(self)@.write_spec(final(self)@, r, index as int, value, bytes as int),
    {
        let count: usize = bytes as usize;
        if count == 0 || count > WORD_BYTES || index > self.len || self.len - index < count || index
            % count != 0 {
            return false;
        }
        let chunk_index: usize = index / ATOMIC_RAM_CHUNK_BYTES;
        let chunk_offset: usize = index % ATOMIC_RAM_CHUNK_BYTES;
        if chunk_offset + count > ATOMIC_RAM_CHUNK_BYTES {
            return false;
        }
        if value & byte_mask(count) == 0 {
            if let Slot::Unset = &self.chunks[chunk_index] {
                return true;
            }
        }
        self.store(index, value, bytes)
    }

    /// A store into a chunk that is asked for.
    #[verifier::rlimit(30)]
    fn store(&mut self, index: usize, value: u64, bytes: u8) -> (r: bool)
        requires
            old(self).wf(),
            0 < bytes <= 8,
            index + bytes <= old(self).len,
            offset_of(index as int) + bytes <= 0x20_0000,
        ensures
            final(self).wf(),
            final(self).len == old(self).len,
            r ==> {
                &&& in_one_word(index as int, bytes as int)
                &&& !(old(self)@.slot(index as int) is Denied)
                &&& final(self)@ == old(self)@.materialized(index as int).counted_store(
                    index as int,
                    value,
                    bytes as int,
                )
            },
            !r ==> old(self)@.asked(final(self)@, index as int) && (final(self)@.slot(
                index as int,
            ) is Denied || !in_one_word(index as int, bytes as int)),
    {
        let chunk_index: usize = index / ATOMIC_RAM_CHUNK_BYTES;
        let chunk_offset: usize = index % ATOMIC_RAM_CHUNK_BYTES;
        proof {
            lemma_chunk_bounds(self.len as int, chunk_index as int);
            assert(chunk_of(chunk_index * 0x20_0000) == chunk_of(index as int));
        }
        if !self.chunk(chunk_index) {
            return false;
        }
        let ghost before = *self;
        let ghost held = self.chunks@[chunk_index as int];
        let done: bool = match &mut self.chunks[chunk_index] {
            Slot::Held(chunk) => chunk.write_value(chunk_offset, value, bytes),
            _ => false,
        };
        proof {
            assert(before@ =~= old(self)@.materialized(index as int));
            if done {
                lemma_counted_store(
                    before,
                    *self,
                    chunk_index as int,
                    chunk_offset as int,
                    value,
                    bytes as int,
                );
            } else {
                lemma_reached(before, chunk_index as int, chunk_offset as int, bytes as int);
                assert(self.chunks@ =~= before.chunks@);
            }
        }
        done
    }

    pub fn set_byte(&mut self, index: usize, value: u8) -> (r: bool)
        requires
            old(self).wf(),
        ensures
            final(self).wf(),
            final(self).len == old(self).len,
            old(self)@.write_spec(final(self)@, r, index as int, value as u64, 1),
    {
        if index >= self.len {
            return false;
        }
        proof {
            let wide = value as u64;
            assert(wide <= 0xff ==> wide & mask_of(1) == wide) by (bit_vector);
        }
        if value == 0 {
            if let Slot::Unset = &self.chunks[index / ATOMIC_RAM_CHUNK_BYTES] {
                return true;
            }
        }
        self.store(index, value as u64, 1)
    }

    pub fn load_reserved(&self, index: usize, bytes: u8) -> (r: Option<(u64, AtomicReservation)>)
        requires
            self.wf(),
        ensures
            r == self@.reserve_spec(index, bytes),
    {
        let count: usize = bytes as usize;
        if count == 0 || count > WORD_BYTES || index > self.len || self.len - index < count || index
            % count != 0 {
            return None;
        }
        let chunk_index: usize = index / ATOMIC_RAM_CHUNK_BYTES;
        let chunk_offset: usize = index % ATOMIC_RAM_CHUNK_BYTES;
        proof {
            lemma_chunk_bounds(self.len as int, chunk_index as int);
            lemma_granule(self.len as int, index as int);
        }
        match &self.chunks[chunk_index] {
            Slot::Unset => Some((0, AtomicReservation { index, bytes, generation: 0 })),
            Slot::Held(chunk) => {
                proof {
                    lemma_reached(*self, chunk_index as int, chunk_offset as int, count as int);
                }
                match chunk.load_reserved(chunk_offset, bytes) {
                    Some((value, generation)) => {
                        proof {
                            lemma_window(
                                *self,
                                chunk_index as int,
                                chunk_offset as int,
                                count as int,
                            );
                        }
                        Some((value, AtomicReservation { index, bytes, generation }))
                    },
                    None => None,
                }
            },
            Slot::Denied => None,
        }
    }

    pub fn store_conditional(
        &mut self,
        reservation: AtomicReservation,
        index: usize,
        value: u64,
        bytes: u8,
    ) -> (r: bool)
        requires
            old(self).wf(),
        ensures
            final(self).wf(),
            final(self).len == old(self).len,
            old(self)@.conditional_spec(final(self)@, r, reservation, index, value, bytes),
    {
        if reservation.index != index || reservation.bytes != bytes {
            return false;
        }
        let count: usize = bytes as usize;
        if count == 0 || count > WORD_BYTES || index > self.len || self.len - index < count || index
            % count != 0 {
            return false;
        }
        let chunk_index: usize = index / ATOMIC_RAM_CHUNK_BYTES;
        let chunk_offset: usize = index % ATOMIC_RAM_CHUNK_BYTES;
        proof {
            lemma_chunk_bounds(self.len as int, chunk_index as int);
            lemma_granule(self.len as int, index as int);
            assert(chunk_of(chunk_index * 0x20_0000) == chunk_of(index as int));
        }
        if !self.chunk(chunk_index) {
            return false;
        }
        let ghost before = *self;
        let done: bool = match &mut self.chunks[chunk_index] {
            Slot::Held(chunk) => chunk.store_conditional(
                chunk_offset,
                value,
                bytes,
                reservation.generation,
            ),
            _ => false,
        };
        proof {
            assert(before@ =~= old(self)@.materialized(index as int));
            lemma_reached(before, chunk_index as int, chunk_offset as int, count as int);
            if done {
                lemma_counted_store(
                    before,
                    *self,
                    chunk_index as int,
                    chunk_offset as int,
                    value,
                    bytes as int,
                );
            } else {
                assert(self.chunks@ =~= before.chunks@);
            }
        }
        done
    }
}

/// Whether the part of `source`, laid at `start`, that falls into chunk `k` is zero.
pub open spec fn part_is_zero(source: Seq<u8>, start: int, k: int) -> bool {
    forall|i: int|
        0 <= i < source.len() && chunk_of(start + i) == k ==> #[trigger] source[i] == 0
}

/// The chunks after bytes were laid at `start`: those that got a nonzero byte exist.
pub open spec fn slots_after(slots: Seq<SlotState>, source: Seq<u8>, start: int) -> Seq<SlotState> {
    Seq::new(
        slots.len(),
        |k: int|
            if slots[k] is Unset && !part_is_zero(source, start, k) {
                SlotState::Held
            } else {
                slots[k]
            },
    )
}

impl AtomicGuestRam {
    /// Replaces the value at `index` by a function of it and gives the former
    /// value.
    pub fn update_value<F: FnOnce(u64) -> u64>(
        &mut self,
        index: usize,
        bytes: u8,
        value: F,
    ) -> (r: Option<u64>)
        requires
            old(self).wf(),
            forall|v: u64| call_requires(value, (v,)),
        ensures
            final(self).wf(),
            final(self).len == old(self).len,
            !aligned_range(old(self).len as int, index as int, bytes as int) ==> r is None && final(self)@ == old(self)@,
            aligned_range(old(self).len as int, index as int, bytes as int) && r is None
                ==> old(self)@.asked(final(self)@, index as int) && (final(self)@.slot(
                index as int,
            ) is Denied || !old(self)@.reservable(index as int, bytes as int)),
            r matches Some(before) ==> {
                &&& old(self)@.reservable(index as int, bytes as int)
                &&& !(old(self)@.slot(index as int) is Denied)
                &&& Some(before) == ram::value_at(old(self)@.bytes, index as int, bytes)
                &&& exists|new: u64|
                    call_ensures(value, (before,), new) && final(self)@ == #[trigger] old(
                        self,
                    )@.materialized(index as int).counted_store(index as int, new, bytes as int)
            },
    {
        let count: usize = bytes as usize;
        if count == 0 || count > WORD_BYTES || index > self.len || self.len - index < count || index
            % count != 0 {
            return None;
        }
        let chunk_index: usize = index / ATOMIC_RAM_CHUNK_BYTES;
        let chunk_offset: usize = index % ATOMIC_RAM_CHUNK_BYTES;
        proof {
            lemma_chunk_bounds(self.len as int, chunk_index as int);
            lemma_granule(self.len as int, index as int);
            assert(chunk_of(chunk_index * 0x20_0000) == chunk_of(index as int));
        }
        if !self.chunk(chunk_index) {
            return None;
        }
        let ghost held = *self;
        let result: Option<u64> = match &mut self.chunks[chunk_index] {
            Slot::Held(chunk) => chunk.update_value(chunk_offset, value, bytes),
            _ => None,
        };
        proof {
            assert(held@ =~= old(self)@.materialized(index as int));
            lemma_reached(held, chunk_index as int, chunk_offset as int, count as int);
            match result {
                Some(before) => {
                    lemma_window(held, chunk_index as int, chunk_offset as int, count as int);
                    let c = held.chunks@[chunk_index as int]->Held_0;
                    let d = self.chunks@[chunk_index as int]->Held_0;
                    let new = choose|new: u64|
                        call_ensures(value, (before,), new) && #[trigger] c.store_spec(
                            &d,
                            chunk_offset as int,
                            new,
                            bytes as int,
                        );
                    lemma_counted_store(
                        held,
                        *self,
                        chunk_index as int,
                        chunk_offset as int,
                        new,
                        bytes as int,
                    );
                    assert(self@ == old(self)@.materialized(index as int).counted_store(
                        index as int,
                        new,
                        bytes as int,
                    ));
                },
                None => {
                    assert(self.chunks@ =~= held.chunks@);
                },
            }
        }
        result
    }

    /// Zeroes the chunks that exist and forgets the stores.
    pub fn fill_zero(&mut self)
        requires
            old(self).wf(),
        ensures
            final(self).wf(),
            final(self).len == old(self).len,
            final(self)@.bytes == ram::zeros(old(self).len as nat),
            final(self)@.generations == Seq::new(
                old(self)@.generations.len(),
                |g: int| 0u64,
            ),
            final(self)@.slots == old(self)@.slots,
    {
        let mut i: usize = 0;
        while i < self.chunks.len()
            invariant
                i <= self.chunks@.len(),
                self.chunks@.len() == old(self).chunks@.len(),
                self.len == old(self).len,
                self.wf(),
                forall|k: int|
                    0 <= k < self.chunks@.len() ==> slot_state(#[trigger] self.chunks@[k])
                        == slot_state(old(self).chunks@[k]),
                forall|k: int|
                    #![trigger self.chunks@[k]]
                    0 <= k < i && self.chunks@[k] is Held ==> cleared(self.chunks@[k]->Held_0),
            decreases self.chunks@.len() - i,
        {
            let ghost before = *self;
            assert(slot_wf(self.chunks@[i as int], self.len as int, i as int));
            if let Slot::Held(chunk) = &mut self.chunks[i] {
                chunk.clear_quiescent();
            }
            assert(slot_wf(self.chunks@[i as int], self.len as int, i as int));
            assert forall|k: int| 0 <= k < self.chunks@.len() implies slot_wf(
                #[trigger] self.chunks@[k],
                self.len as int,
                k,
            ) by {
                if k != i {
                    assert(slot_wf(before.chunks@[k], before.len as int, k));
                }
            }
            i = i + 1;
        }
        assert forall|j: int| 0 <= j < self.len implies self@.bytes[j] == 0 by {
            let k = chunk_of(j);
            assert(0 <= k < self.chunks@.len());
            lemma_zero_digit((offset_of(j) % 8) as u64);
            assert(slot_wf(self.chunks@[k], self.len as int, k));
        }
        assert forall|g: int| 0 <= g < self@.generations.len() implies #[trigger] self@.generations[g]
            == 0 by {
            let k = g / 0x8000;
            assert(0 <= k < self.chunks@.len());
            assert(slot_wf(self.chunks@[k], self.len as int, k));
        }
        assert(self@.bytes =~= ram::zeros(self.len as nat));
        assert(self@.slots =~= old(self)@.slots);
    }

    /// Copies bytes in without counting a store. Where the allocator refuses a
    /// chunk, the bytes before it have been copied.
    #[verifier::spinoff_prover]
    #[verifier::rlimit(40)]
    pub fn copy_from_slice(&mut self, start: usize, source: &[u8]) -> (r: bool)
        requires
            old(self).wf(),
        ensures
            final(self).wf(),
            final(self).len == old(self).len,
            final(self)@.generations == old(self)@.generations,
            start + source@.len() > old(self).len ==> !r && final(self)@ == old(self)@,
            r ==> final(self)@.bytes == ram::splice(old(self)@.bytes, start as int, source@)
                && final(self)@.slots == slots_after(old(self)@.slots, source@, start as int),
            !r && start + source@.len() <= old(self).len ==> exists|done: int|
                {
                    &&& 0 <= done < source@.len()
                    &&& final(self)@.slot(start + done) is Denied
                    &&& final(self)@.bytes == ram::splice(
                        old(self)@.bytes,
                        start as int,
                        #[trigger] source@.take(done),
                    )
                },
    {
        let total: usize = source.len();
        if start > self.len || self.len - start < total {
            return false;
        }
        let end: usize = start + total;
        let mut destination: usize = start;
        let mut copied: usize = 0;
        proof {
            assert(self@.bytes =~= ram::splice(old(self)@.bytes, start as int, source@.take(0)));
            assert(self@.slots =~= slots_after(old(self)@.slots, source@.take(0), start as int));
        }
        while destination < end
            invariant
                self.wf(),
                self.len == old(self).len,
                end <= self.len,
                total == source@.len(),
                end == start + total,
                copied <= total,
                destination == start + copied,
                copied == 0 || copied == total || offset_of(destination as int) == 0,
                self@.generations == old(self)@.generations,
                self@.slots.len() == old(self)@.slots.len(),
                self@.bytes == ram::splice(
                    old(self)@.bytes,
                    start as int,
                    source@.take(copied as int),
                ),
                self@.slots == slots_after(
                    old(self)@.slots,
                    source@.take(copied as int),
                    start as int,
                ),
            decreases end - destination,
        {
            let chunk_index: usize = destination / ATOMIC_RAM_CHUNK_BYTES;
            let chunk_offset: usize = destination % ATOMIC_RAM_CHUNK_BYTES;
            let left: usize = end - destination;
            let copy_len: usize = if left < ATOMIC_RAM_CHUNK_BYTES - chunk_offset {
                left
            } else {
                ATOMIC_RAM_CHUNK_BYTES - chunk_offset
            };
            proof {
                lemma_chunk_bounds(self.len as int, chunk_index as int);
                assert(chunk_of(chunk_index * 0x20_0000) == chunk_index);
            }
            let part: Vec<u8> = bytes::copy_range(source, copied, copied + copy_len);
            let zero: bool = is_zero(&part);
            let ghost before = *self;
            if !zero {
                if !self.chunk(chunk_index) {
                    assert(self@.bytes == ram::splice(
                        old(self)@.bytes,
                        start as int,
                        source@.take(copied as int),
                    ));
                    return false;
                }
            }
            let ghost asked = *self;
            proof {
                assert(slot_wf(self.chunks@[chunk_index as int], self.len as int, chunk_index as int));
            }
            if let Slot::Held(chunk) = &mut self.chunks[chunk_index] {
                let _ = chunk.write_bytes_quiescent(chunk_offset, part.as_slice());
            }
            proof {
                lemma_part_copied(asked, *self, chunk_index as int, chunk_offset as int, part@);
                assert(self@.bytes =~= ram::splice(
                    old(self)@.bytes,
                    start as int,
                    source@.take(copied + copy_len),
                ));
                assert forall|k: int| 0 <= k < self@.slots.len() implies self@.slots[k]
                    == slots_after(
                    old(self)@.slots,
                    source@.take(copied + copy_len),
                    start as int,
                )[k] by {
                    lemma_part_extends(
                        source@,
                        start as int,
                        copied as int,
                        copy_len as int,
                        chunk_index as int,
                        k,
                    );
                    assert(part@ =~= source@.subrange(copied as int, copied + copy_len));
                }
                assert(self@.slots =~= slots_after(
                    old(self)@.slots,
                    source@.take(copied + copy_len),
                    start as int,
                ));
            }
            destination = destination + copy_len;
            copied = copied + copy_len;
        }
        assert(source@.take(total as int) =~= source@);
        true
    }

    /// The bytes of a range; none where a chunk of it was refused.
    pub fn copy_to_vec(&self, range: std::ops::Range<usize>) -> (r: Option<Vec<u8>>)
        requires
            self.wf(),
        ensures
            r is Some <==> range.start <= range.end <= self.len && forall|i: int|
                range.start <= i < range.end ==> !(self@.slots[#[trigger] chunk_of(i)] is Denied),
            r matches Some(v) ==> v@ == self@.bytes.subrange(
                range.start as int,
                range.end as int,
            ),
    {
        if range.start > range.end || range.end > self.len {
            return None;
        }
        let mut out: Vec<u8> = Vec::new();
        let mut i: usize = range.start;
        while i < range.end
            invariant
                self.wf(),
                range.start <= i <= range.end <= self.len,
                out@ == self@.bytes.subrange(range.start as int, i as int),
                forall|j: int|
                    range.start <= j < i ==> !(self@.slots[#[trigger] chunk_of(j)] is Denied),
            decreases range.end - i,
        {
            match self.byte(i) {
                Some(byte) => {
                    out.push(byte);
                },
                None => {
                    assert(self@.slots[chunk_of(i as int)] is Denied);
                    return None;
                },
            }
            i = i + 1;
            assert(out@ =~= self@.bytes.subrange(range.start as int, i as int));
        }
        Some(out)
    }

    /// The pages that hold a nonzero byte, in ascending order.
    pub fn nonzero_pages(&self, page_bytes: usize) -> (r: Vec<(usize, Vec<u8>)>)
        requires
            self.wf(),
            page_bytes > 0,
            self.len % page_bytes == 0,
            ATOMIC_RAM_CHUNK_BYTES % page_bytes == 0,
        ensures
            ({
                let pages = ram::populated(
                    self@.bytes,
                    page_bytes as int,
                    (self.len / page_bytes) as nat,
                );
                &&& r@.len() == pages.len()
                &&& forall|k: int|
                    0 <= k < pages.len() ==> (#[trigger] r@[k]).0 == pages[k] && r@[k].1@
                        == ram::page_of(self@.bytes, page_bytes as int, pages[k])
            }),
    {
        let count: usize = self.len / page_bytes;
        let mut out: Vec<(usize, Vec<u8>)> = Vec::new();
        let mut p: usize = 0;
        while p < count
            invariant
                self.wf(),
                page_bytes > 0,
                count == self.len / page_bytes,
                self.len % page_bytes == 0,
                ATOMIC_RAM_CHUNK_BYTES % page_bytes == 0,
                p <= count,
                out@.len() == ram::populated(self@.bytes, page_bytes as int, p as nat).len(),
                forall|k: int|
                    0 <= k < out@.len() ==> (#[trigger] out@[k]).0 == ram::populated(
                        self@.bytes,
                        page_bytes as int,
                        p as nat,
                    )[k] && out@[k].1@ == ram::page_of(
                        self@.bytes,
                        page_bytes as int,
                        ram::populated(self@.bytes, page_bytes as int, p as nat)[k],
                    ),
            decreases count - p,
        {
            proof {
                vstd::arithmetic::div_mod::lemma_fundamental_div_mod(
                    self.len as int,
                    page_bytes as int,
                );
                vstd::arithmetic::mul::lemma_mul_inequality(
                    p + 1,
                    count as int,
                    page_bytes as int,
                );
                vstd::arithmetic::mul::lemma_mul_is_distributive_add_other_way(
                    page_bytes as int,
                    p as int,
                    1,
                );
                vstd::arithmetic::mul::lemma_mul_is_commutative(count as int, page_bytes as int);
            }
            let start: usize = p * page_bytes;
            let ghost page = ram::page_of(self@.bytes, page_bytes as int, p as int);
            proof {
                ram::lemma_page_in_one_chunk(p as int, page_bytes as int);
                assert forall|i: int| start <= i < start + page_bytes implies #[trigger] chunk_of(i)
                    == chunk_of(start as int) by {
                    let j = i - start;
                    assert((p * page_bytes + j) / 0x20_0000 == (p * page_bytes) / 0x20_0000);
                }
            }
            if let Slot::Held(_) = &self.chunks[start / ATOMIC_RAM_CHUNK_BYTES] {
                let bytes: Vec<u8> = match self.copy_to_vec(start..start + page_bytes) {
                    Some(bytes) => bytes,
                    None => Vec::new(),
                };
                if !is_zero(&bytes) {
                    out.push((p, bytes));
                }
            } else {
                proof {
                    assert forall|i: int| 0 <= i < page.len() implies page[i] == 0 by {
                        assert(page[i] == self@.bytes[start + i]);
                        assert(chunk_of(start + i) == chunk_of(start as int));
                    }
                    assert(ram::all_zero(page));
                }
            }
            p = p + 1;
        }
        out
    }

    /// An exact copy.
    pub fn duplicate(&self) -> (r: Self)
        requires
            self.wf(),
        ensures
            r.wf(),
            r@ == self@,
            r.len == self.len,
    {
        let mut chunks: Vec<Slot> = Vec::new();
        let mut i: usize = 0;
        while i < self.chunks.len()
            invariant
                self.wf(),
                i <= self.chunks@.len(),
                chunks@.len() == i,
                forall|k: int|
                    0 <= k < i ==> slot_state(#[trigger] chunks@[k]) == slot_state(self.chunks@[k]),
                forall|k: int|
                    #![trigger chunks@[k]]
                    0 <= k < i && chunks@[k] is Held ==> chunks@[k]->Held_0.words@
                        == self.chunks@[k]->Held_0.words@
                        && chunks@[k]->Held_0.write_generations@
                        == self.chunks@[k]->Held_0.write_generations@,
            decreases self.chunks@.len() - i,
        {
            match &self.chunks[i] {
                Slot::Unset => {
                    chunks.push(Slot::Unset);
                },
                Slot::Held(chunk) => {
                    chunks.push(Slot::Held(chunk.clone_quiescent()));
                },
                Slot::Denied => {
                    chunks.push(Slot::Denied);
                },
            }
            i = i + 1;
        }
        let copy = AtomicGuestRam { chunks, len: self.len };
        proof {
            assert forall|k: int| 0 <= k < copy.chunks@.len() implies slot_wf(
                #[trigger] copy.chunks@[k],
                copy.len as int,
                k,
            ) by {
                assert(slot_wf(self.chunks@[k], self.len as int, k));
                assert(slot_state(copy.chunks@[k]) == slot_state(self.chunks@[k]));
            }
            assert forall|j: int| 0 <= j < self.len implies copy@.bytes[j] == self@.bytes[j] by {
                assert(0 <= chunk_of(j) < self.chunks@.len());
                assert(slot_state(copy.chunks@[chunk_of(j)]) == slot_state(
                    self.chunks@[chunk_of(j)],
                ));
            }
            assert forall|g: int| 0 <= g < self@.generations.len() implies #[trigger] copy@.generations[g]
                == self@.generations[g] by {
                assert(0 <= g / 0x8000 < self.chunks@.len());
                assert(slot_state(copy.chunks@[g / 0x8000]) == slot_state(self.chunks@[g / 0x8000]));
            }
            assert(copy@ =~= self@);
        }
        copy
    }
}

/// A chunk with nothing in it.
pub open spec fn cleared(chunk: AtomicRamChunk) -> bool {
    &&& forall|w: int| 0 <= w < chunk.words@.len() ==> #[trigger] chunk.words@[w] == 0
    &&& forall|g: int|
        0 <= g < chunk.write_generations@.len() ==> #[trigger] chunk.write_generations@[g] == 0
}

/// Bytes copied into one chunk are copied into the RAM; where the chunk does
/// not exist they are zero and there is nothing to copy.
proof fn lemma_part_copied(
    before: AtomicGuestRam,
    after: AtomicGuestRam,
    k: int,
    offset: int,
    part: Seq<u8>,
)
    requires
        before.wf(),
        after.len == before.len,
        after.chunks@.len() == before.chunks@.len(),
        0 <= k < before.chunks@.len(),
        0 <= offset,
        offset + part.len() <= chunk_len(before.len as int, k),
        forall|i: int|
            0 <= i < before.chunks@.len() && i != k ==> after.chunks@[i] == before.chunks@[i],
        slot_state(after.chunks@[k]) == slot_state(before.chunks@[k]),
        before.chunks@[k] is Held ==> after.chunks@[k]->Held_0.bytes() == ram::splice(
            before.chunks@[k]->Held_0.bytes(),
            offset,
            part,
        ) && after.chunks@[k]->Held_0.write_generations@
            == before.chunks@[k]->Held_0.write_generations@ && after.chunks@[k]->Held_0.words@.len()
            == before.chunks@[k]->Held_0.words@.len(),
        !(before.chunks@[k] is Held) ==> ram::all_zero(part),
    ensures
        after.wf(),
        after@.bytes == ram::splice(before@.bytes, k * 0x20_0000 + offset, part),
        after@.generations == before@.generations,
        after@.slots == before@.slots,
{
    let index = k * 0x20_0000 + offset;
    lemma_chunk_bounds(before.len as int, k);
    assert(slot_wf(before.chunks@[k], before.len as int, k));
    assert forall|i: int| 0 <= i < after.chunks@.len() implies slot_wf(
        #[trigger] after.chunks@[i],
        after.len as int,
        i,
    ) by {
        assert(slot_wf(before.chunks@[i], before.len as int, i));
    }
    let target = ram::splice(before@.bytes, index, part);
    assert forall|j: int| 0 <= j < after.len implies after@.bytes[j] == target[j] by {
        if chunk_of(j) == k {
            assert(j == k * 0x20_0000 + offset_of(j));
        }
    }
    assert(after@.bytes =~= target);
    assert(after@.generations =~= before@.generations);
    assert(after@.slots =~= before@.slots);
}

/// What one chunk's part adds to the zero test of every chunk.
proof fn lemma_part_extends(
    source: Seq<u8>,
    start: int,
    copied: int,
    more: int,
    current: int,
    k: int,
)
    requires
        0 <= start,
        0 <= copied,
        0 <= more,
        copied + more <= source.len(),
        copied == 0 || offset_of(start + copied) == 0,
        chunk_of(start + copied) == current,
        offset_of(start + copied) + more <= 0x20_0000,
    ensures
        k != current ==> part_is_zero(source.take(copied + more), start, k) == part_is_zero(
            source.take(copied),
            start,
            k,
        ),
        k == current ==> part_is_zero(source.take(copied), start, k),
        k == current ==> part_is_zero(source.take(copied + more), start, k) == ram::all_zero(
            source.subrange(copied, copied + more),
        ),
{
    let all = source.take(copied + more);
    let front = source.take(copied);
    let part = source.subrange(copied, copied + more);
    assert forall|i: int| 0 <= i < copied implies #[trigger] all[i] == front[i] by {}
    assert forall|i: int| copied <= i < copied + more implies #[trigger] all[i] == part[i - copied]
        && chunk_of(start + i) == current by {}
    if k == current {
        assert forall|i: int| 0 <= i < front.len() && chunk_of(start + i) == k implies #[trigger] front[i]
            == 0 by {}
        if ram::all_zero(part) {
            assert(part_is_zero(all, start, k));
        }
        if part_is_zero(all, start, k) {
            assert forall|i: int| 0 <= i < part.len() implies part[i] == 0 by {
                assert(all[copied + i] == part[i]);
            }
        }
    } else {
        if part_is_zero(front, start, k) {
            assert forall|i: int| 0 <= i < all.len() && chunk_of(start + i) == k implies #[trigger] all[i]
                == 0 by {
                assert(all[i] == front[i]);
            }
        }
        if part_is_zero(all, start, k) {
            assert forall|i: int| 0 <= i < front.len() && chunk_of(start + i) == k implies #[trigger] front[i]
                == 0 by {
                assert(all[i] == front[i]);
            }
        }
    }
}

/// A chunk lies inside the RAM.
proof fn lemma_chunk_bounds(len: int, k: int)
    requires
        0 <= k < units(len, 0x20_0000),
    ensures
        k * 0x20_0000 < len,
        0 < chunk_len(len, k) <= 0x20_0000,
        units(chunk_len(len, k), 8) <= 0x4_0000,
        units(chunk_len(len, k), 64) <= 0x8000,
{
}

/// The granule of an address lies in the address's chunk.
proof fn lemma_granule(len: int, index: int)
    requires
        0 <= index < len,
    ensures
        0 <= index / 64 < units(len, 64),
        (index / 64) / 0x8000 == chunk_of(index),
        (index / 64) % 0x8000 == offset_of(index) / 64,
{
}

/// A chunk that exists takes every access that lies in one word of it.
proof fn lemma_reached(ram: AtomicGuestRam, k: int, offset: int, n: int)
    requires
        ram.wf(),
        0 <= k < ram.chunks@.len(),
        ram.chunks@[k] is Held,
        0 <= offset < 0x20_0000,
        k * 0x20_0000 + offset + n <= ram.len,
        0 < n <= 8,
    ensures
        ram.chunks@[k]->Held_0.reaches(offset, n) == in_one_word(offset, n),
        in_one_word(offset, n) == in_one_word(k * 0x20_0000 + offset, n),
        in_one_word(offset, n) ==> offset + n <= chunk_len(ram.len as int, k),
        in_one_word(offset, n) ==> offset + n <= ram.chunks@[k]->Held_0.bytes().len(),
{
    assert(slot_wf(ram.chunks@[k], ram.len as int, k));
}

/// The bytes of a chunk are the bytes of the RAM there.
proof fn lemma_window(ram: AtomicGuestRam, k: int, offset: int, n: int)
    requires
        ram.wf(),
        0 <= k < ram.chunks@.len(),
        ram.chunks@[k] is Held,
        0 <= offset,
        0 <= n,
        offset + n <= chunk_len(ram.len as int, k),
        offset + n <= ram.chunks@[k]->Held_0.bytes().len(),
    ensures
        ram@.bytes.subrange(k * 0x20_0000 + offset, k * 0x20_0000 + offset + n)
            == ram.chunks@[k]->Held_0.bytes().subrange(offset, offset + n),
        k * 0x20_0000 + offset + n <= ram@.bytes.len(),
{
    let left = ram@.bytes.subrange(k * 0x20_0000 + offset, k * 0x20_0000 + offset + n);
    let right = ram.chunks@[k]->Held_0.bytes().subrange(offset, offset + n);
    assert forall|j: int| 0 <= j < n implies left[j] == right[j] by {
        assert(chunk_of(k * 0x20_0000 + offset + j) == k);
        assert(offset_of(k * 0x20_0000 + offset + j) == offset + j);
    }
    assert(left =~= right);
}

/// A counted store to one chunk is a counted store to the RAM.
proof fn lemma_counted_store(
    before: AtomicGuestRam,
    after: AtomicGuestRam,
    k: int,
    offset: int,
    value: u64,
    n: int,
)
    requires
        before.wf(),
        after.len == before.len,
        after.chunks@.len() == before.chunks@.len(),
        0 <= k < before.chunks@.len(),
        forall|i: int|
            0 <= i < before.chunks@.len() && i != k ==> after.chunks@[i] == before.chunks@[i],
        before.chunks@[k] is Held,
        after.chunks@[k] is Held,
        before.chunks@[k]->Held_0.store_spec(&after.chunks@[k]->Held_0, offset, value, n),
        0 <= offset < 0x20_0000,
        in_one_word(offset, n),
        k * 0x20_0000 + offset + n <= before.len,
    ensures
        after.wf(),
        after@ == before@.counted_store(k * 0x20_0000 + offset, value, n),
{
    let index = k * 0x20_0000 + offset;
    let c = before.chunks@[k]->Held_0;
    let d = after.chunks@[k]->Held_0;
    let digits = bytes::le_bytes(value as nat, n as nat);
    let target = before@.counted_store(index, value, n);
    bytes::lemma_le_bytes_len(value as nat, n as nat);
    lemma_chunk_bounds(before.len as int, k);
    lemma_granule(before.len as int, index);
    lemma_reached(before, k, offset, n);
    assert(slot_wf(before.chunks@[k], before.len as int, k));
    let g0 = offset / 64;
    lemma_even_step(c.write_generations@[g0]);
    assert(slot_wf(after.chunks@[k], after.len as int, k));
    assert forall|i: int| 0 <= i < after.chunks@.len() implies slot_wf(
        #[trigger] after.chunks@[i],
        after.len as int,
        i,
    ) by {
        if i != k {
            assert(slot_wf(before.chunks@[i], before.len as int, i));
        }
    }
    assert forall|j: int| 0 <= j < after.len implies after@.bytes[j] == target.bytes[j] by {
        if chunk_of(j) == k {
            assert(j == k * 0x20_0000 + offset_of(j));
            assert(d.bytes()[offset_of(j)] == ram::splice(c.bytes(), offset, digits)[offset_of(j)]);
        }
    }
    assert forall|g: int| 0 <= g < after@.generations.len() implies #[trigger] after@.generations[g]
        == target.generations[g] by {
        if g / 0x8000 == k && g % 0x8000 == g0 {
            assert(g == index / 64);
        }
    }
    assert(after@ =~= target);
}

proof fn lemma_even_step(count: u64)
    requires
        count % 2 == 0,
    ensures
        count.wrapping_add(2) % 2 == 0,
        count.wrapping_add(2) != count,
{
}

proof fn lemma_zero_digit(j: u64)
    requires
        j < 8,
    ensures
        digit(0, j) == 0,
{
    assert(j < 8 ==> digit(0, j) == 0) by (bit_vector);
}

// Laws.

/// A store to the reserved granule breaks the reservation: the conditional
/// store that shows it is refused and changes no byte. The one exception is a
/// store of zeroes to a chunk that never existed, which changes nothing.
pub proof fn overlapping_stores_break_reservations(
    ram: AtomicRamView,
    index: usize,
    bytes: u8,
    stored: AtomicRamView,
    other: int,
    value: u64,
    n: int,
    after: AtomicRamView,
    done: bool,
    late: u64,
)
    requires
        ram.reserve_spec(index, bytes) is Some,
        ram.generations.len() == units(ram.bytes.len() as int, 64),
        0 <= other,
        other / 64 == index as int / 64,
        ram.write_spec(stored, true, other, value, n),
        stored.conditional_spec(
            after,
            done,
            ram.reserve_spec(index, bytes)->Some_0.1,
            index,
            late,
            bytes,
        ),
    ensures
        stored == ram || !done && after.bytes == stored.bytes,
{
    lemma_granule(ram.bytes.len() as int, index as int);
    if stored != ram {
        let count = ram.generations[index as int / 64];
        assert(count.wrapping_add(2) != count);
        assert(stored.generations[index as int / 64] == count.wrapping_add(2));
    }
}

/// A store outside the reserved granule leaves the reservation standing: the
/// conditional store that shows it goes through wherever the chunk can be had.
pub proof fn disjoint_stores_keep_reservations(
    ram: AtomicRamView,
    index: usize,
    bytes: u8,
    stored: AtomicRamView,
    other: int,
    value: u64,
    n: int,
    after: AtomicRamView,
    done: bool,
    late: u64,
)
    requires
        ram.reserve_spec(index, bytes) is Some,
        ram.reservable(index as int, bytes as int),
        ram.generations.len() == units(ram.bytes.len() as int, 64),
        0 <= other,
        other / 64 != index as int / 64,
        ram.write_spec(stored, true, other, value, n),
        stored.conditional_spec(
            after,
            done,
            ram.reserve_spec(index, bytes)->Some_0.1,
            index,
            late,
            bytes,
        ),
    ensures
        done || after.slot(index as int) is Denied,
{
    lemma_granule(ram.bytes.len() as int, index as int);
    if stored != ram {
        lemma_granule(ram.bytes.len() as int, other);
    }
    assert(stored.generations[index as int / 64] == ram.generations[index as int / 64]);
}

/// What a conditional store writes is read back.
pub proof fn conditional_stores_are_read_back(
    ram: AtomicRamView,
    after: AtomicRamView,
    reservation: AtomicReservation,
    index: usize,
    value: u64,
    bytes: u8,
)
    requires
        ram.conditional_spec(after, true, reservation, index, value, bytes),
        value < bytes::limit(bytes as nat),
    ensures
        ram::value_at(after.bytes, index as int, bytes) == Some(value),
{
    ram::load_after_store(ram.bytes, index as int, value, bytes);
}

} // verus!
