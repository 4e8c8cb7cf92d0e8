//! Reading a flattened device tree back.

use crate::boot;
use crate::bytes;
use crate::fdt;
use crate::fdt::{Item, LinuxFdtConfig};
use crate::machine::MachineView;
use crate::platform::{DRAM_BASE, MAX_RAM_BYTES};
use vstd::prelude::*;
use vstd::string::*;

verus! {

// Reading bytes.

/// The number that some bytes stand for, the highest first.
pub open spec fn number(s: Seq<u8>) -> nat
    decreases s.len(),
{
    if s.len() == 0 {
        0
    } else {
        number(s.drop_last()) * 256 + s.last() as nat
    }
}

/// The word at a place.
pub open spec fn word_at(s: Seq<u8>, at: int) -> int {
    number(s.subrange(at, at + 4)) as int
}

/// Where the first zero from a place on stands.
pub open spec fn zero_from(s: Seq<u8>, at: int) -> int
    decreases s.len() - at,
{
    if at < 0 || at >= s.len() || s[at] == 0 {
        at
    } else {
        zero_from(s, at + 1)
    }
}

/// The next multiple of four.
pub open spec fn aligned(at: int) -> int {
    (at + 3) / 4 * 4
}

/// What the structure block says from a place on, with the names of properties
/// taken from the strings block.
pub open spec fn read_items(structure: Seq<u8>, strings: Seq<u8>, at: int) -> Seq<Item>
    decreases structure.len() - at,
{
    if at < 0 || at + 4 > structure.len() {
        Seq::empty()
    } else if word_at(structure, at) == 1 {
        let end = zero_from(structure, at + 4);
        if aligned(end + 1) <= at || aligned(end + 1) > structure.len() {
            Seq::empty()
        } else {
            seq![Item::Begin(structure.subrange(at + 4, end))] + read_items(
                structure,
                strings,
                aligned(end + 1),
            )
        }
    } else if word_at(structure, at) == 2 {
        seq![Item::End] + read_items(structure, strings, at + 4)
    } else if word_at(structure, at) == 3 {
        let length = word_at(structure, at + 4);
        let name = word_at(structure, at + 8);
        if aligned(at + 12 + length) <= at || aligned(at + 12 + length) > structure.len() {
            Seq::empty()
        } else {
            seq![
                Item::Property(
                    strings.subrange(name, zero_from(strings, name)),
                    structure.subrange(at + 12, at + 12 + length),
                ),
            ] + read_items(structure, strings, aligned(at + 12 + length))
        }
    } else {
        Seq::empty()
    }
}

/// What a flattened tree says: its third header word tells where the structure
/// is, the fourth where the strings are, and the last two how long they are.
pub open spec fn read_tree(blob: Seq<u8>) -> Seq<Item> {
    let structure = word_at(blob, 8);
    let strings = word_at(blob, 12);
    read_items(
        blob.subrange(structure, structure + word_at(blob, 36)),
        blob.subrange(strings, strings + word_at(blob, 32)),
        0,
    )
}

// Names.

pub open spec fn zero_free(s: Seq<u8>) -> bool {
    forall|i: int| 0 <= i < s.len() ==> s[i] != 0
}

/// Every name can be ended by a zero.
pub open spec fn named(items: Seq<Item>) -> bool {
    forall|k: int|
        0 <= k < items.len() ==> match #[trigger] items[k] {
            Item::Begin(name) => zero_free(name),
            Item::Property(name, _) => zero_free(name),
            Item::End => true,
        }
}

/// Digits, the highest first, are read back.
pub proof fn lemma_number(v: nat, n: nat)
    requires
        v < bytes::limit(n),
    ensures
        number(bytes::be_bytes(v, n)) == v,
        bytes::be_bytes(v, n).len() == n,
    decreases n,
{
    if n > 0 {
        lemma_number(v / 256, (n - 1) as nat);
        assert(bytes::be_bytes(v, n).drop_last() =~= bytes::be_bytes(v / 256, (n - 1) as nat));
    }
}

proof fn lemma_word(s: Seq<u8>, at: int, value: u32)
    requires
        0 <= at,
        at + 4 <= s.len(),
        s.subrange(at, at + 4) == fdt::word(value),
    ensures
        word_at(s, at) == value,
{
    bytes::lemma_limits();
    lemma_number(value as nat, 4);
}

proof fn lemma_zero(s: Seq<u8>, at: int, name: Seq<u8>)
    requires
        0 <= at,
        at + name.len() < s.len(),
        zero_free(name),
        s.subrange(at, at + name.len()) == name,
        s[at + name.len()] == 0,
    ensures
        zero_from(s, at) == at + name.len(),
    decreases name.len(),
{
    if name.len() > 0 {
        assert(s[at] == s.subrange(at, at + name.len())[0]);
        assert(s[at] == name[0]);
        let rest = name.skip(1);
        assert(s.subrange(at + 1, at + 1 + rest.len()) =~= s.subrange(at, at + name.len()).skip(1));
        lemma_zero(s, at + 1, rest);
    }
}

// Blocks grow at their end.

proof fn lemma_words()
    ensures
        forall|value: u32| #[trigger] fdt::word(value).len() == 4,
{
    assert forall|value: u32| #[trigger] fdt::word(value).len() == 4 by {
        bytes::lemma_be_bytes_len(value as nat, 4);
    }
}

proof fn lemma_aligned(items: Seq<Item>)
    ensures
        fdt::structure_of(items).len() % 4 == 0,
    decreases items.len(),
{
    lemma_words();
    if items.len() > 0 {
        lemma_aligned(items.drop_last());
    }
}

/// What stands before an item stays before it.
proof fn lemma_structure_grows(items: Seq<Item>, n: nat)
    requires
        n <= items.len(),
    ensures
        fdt::structure_of(items.take(n as int)).is_prefix_of(fdt::structure_of(items)),
    decreases items.len() - n,
{
    if n < items.len() {
        lemma_structure_grows(items, n + 1);
        let next = items.take(n as int + 1);
        assert(next.drop_last() =~= items.take(n as int));
        let a = fdt::structure_of(items.take(n as int));
        let b = fdt::structure_of(next);
        let c = fdt::structure_of(items);
        assert(a.is_prefix_of(b)) by {
            assert(b.take(a.len() as int) =~= a);
            assert(a =~= b.subrange(0, a.len() as int));
        }
        assert(a =~= c.subrange(0, a.len() as int)) by {
            assert(b =~= c.subrange(0, b.len() as int));
            assert forall|i: int| 0 <= i < a.len() implies a[i] == c[i] by {
                assert(a[i] == b.subrange(0, a.len() as int)[i]);
                assert(b[i] == c.subrange(0, b.len() as int)[i]);
            }
        }
    } else {
        assert(items.take(n as int) =~= items);
    }
}

proof fn lemma_names_grow(items: Seq<Item>, n: nat)
    requires
        n <= items.len(),
    ensures
        fdt::names_of(items.take(n as int)).is_prefix_of(fdt::names_of(items)),
    decreases items.len() - n,
{
    if n < items.len() {
        lemma_names_grow(items, n + 1);
        let next = items.take(n as int + 1);
        assert(next.drop_last() =~= items.take(n as int));
        let a = fdt::names_of(items.take(n as int));
        let b = fdt::names_of(next);
        let c = fdt::names_of(items);
        assert(a =~= b.subrange(0, a.len() as int));
        assert forall|i: int| 0 <= i < a.len() implies a[i] == c[i] by {
            assert(a[i] == b.subrange(0, a.len() as int)[i]);
            assert(b[i] == c.subrange(0, b.len() as int)[i]);
        }
        assert(a =~= c.subrange(0, a.len() as int));
    } else {
        assert(items.take(n as int) =~= items);
    }
}

proof fn lemma_strings_grow(names: Seq<Seq<u8>>, n: nat)
    requires
        n <= names.len(),
    ensures
        fdt::strings_of(names.take(n as int)).is_prefix_of(fdt::strings_of(names)),
    decreases names.len() - n,
{
    if n < names.len() {
        lemma_strings_grow(names, n + 1);
        let next = names.take(n as int + 1);
        assert(next.drop_last() =~= names.take(n as int));
        let a = fdt::strings_of(names.take(n as int));
        let b = fdt::strings_of(next);
        let c = fdt::strings_of(names);
        assert(a =~= b.subrange(0, a.len() as int));
        assert forall|i: int| 0 <= i < a.len() implies a[i] == c[i] by {
            assert(a[i] == b.subrange(0, a.len() as int)[i]);
            assert(b[i] == c.subrange(0, b.len() as int)[i]);
        }
        assert(a =~= c.subrange(0, a.len() as int));
    } else {
        assert(names.take(n as int) =~= names);
    }
}

/// A name stands at its offset, with a zero behind it.
proof fn lemma_offset(names: Seq<Seq<u8>>, name: Seq<u8>)
    requires
        names.contains(name),
    ensures
        ({
            let at = fdt::offset_of(names, name) as int;
            let strings = fdt::strings_of(names);
            &&& at + name.len() < strings.len()
            &&& strings.subrange(at, at + name.len()) == name
            &&& strings[at + name.len()] == 0
        }),
    decreases names.len(),
{
    let strings = fdt::strings_of(names);
    let front = names.drop_last();
    if names.last() == name {
        let at = fdt::strings_of(front).len() as int;
        assert(strings.subrange(at, at + name.len()) =~= name);
        assert(strings[at + name.len()] == name.push(0)[name.len() as int]);
    } else {
        let i = choose|i: int| 0 <= i < names.len() && names[i] == name;
        assert(front[i] == name);
        assert(front.contains(name));
        lemma_offset(front, name);
        let at = fdt::offset_of(front, name) as int;
        assert(strings.subrange(at, at + name.len()) =~= fdt::strings_of(front).subrange(
            at,
            at + name.len(),
        ));
    }
}

/// The same in the strings of a longer list.
proof fn lemma_name(items: Seq<Item>, n: nat, name: Seq<u8>, value: Seq<u8>)
    requires
        n < items.len(),
        items[n as int] == Item::Property(name, value),
        zero_free(name),
    ensures
        ({
            let at = fdt::offset_of(fdt::names_of(items.take(n as int + 1)), name) as int;
            let strings = fdt::strings_of(fdt::names_of(items));
            &&& at + name.len() < strings.len()
            &&& zero_from(strings, at) == at + name.len()
            &&& strings.subrange(at, at + name.len()) == name
        }),
{
    let next = items.take(n as int + 1);
    let some = fdt::names_of(next);
    let all = fdt::names_of(items);
    assert(next.last() == items[n as int]);
    assert(some.contains(name)) by {
        let before = fdt::names_of(next.drop_last());
        if !before.contains(name) {
            assert(some[before.len() as int] == name);
        }
    }
    lemma_offset(some, name);
    lemma_names_grow(items, n + 1);
    assert(some =~= all.take(some.len() as int));
    lemma_strings_grow(all, some.len());
    let at = fdt::offset_of(some, name) as int;
    let part = fdt::strings_of(some);
    let strings = fdt::strings_of(all);
    assert(part =~= strings.subrange(0, part.len() as int));
    assert forall|i: int| 0 <= i < part.len() implies part[i] == strings[i] by {
        assert(part[i] == strings.subrange(0, part.len() as int)[i]);
    }
    assert(strings.subrange(at, at + name.len()) =~= part.subrange(at, at + name.len()));
    lemma_zero(strings, at, name);
}

/// The start of a node is read.
proof fn lemma_begin(structure: Seq<u8>, strings: Seq<u8>, at: int, name: Seq<u8>)
    requires
        0 <= at,
        at + 4 + name.len() < structure.len(),
        aligned(at + 4 + name.len() + 1) <= structure.len(),
        zero_free(name),
        structure.subrange(at, at + 4) == fdt::word(fdt::FDT_BEGIN_NODE),
        structure.subrange(at + 4, at + 4 + name.len()) == name,
        structure[at + 4 + name.len()] == 0,
    ensures
        read_items(structure, strings, at) == seq![Item::Begin(name)] + read_items(
            structure,
            strings,
            aligned(at + 4 + name.len() + 1),
        ),
{
    lemma_word(structure, at, fdt::FDT_BEGIN_NODE);
    lemma_zero(structure, at + 4, name);
}

/// A property is read.
proof fn lemma_property(
    structure: Seq<u8>,
    strings: Seq<u8>,
    at: int,
    name: Seq<u8>,
    value: Seq<u8>,
    offset: u32,
)
    requires
        0 <= at,
        at + 12 + value.len() <= structure.len() <= u32::MAX,
        aligned(at + 12 + value.len()) <= structure.len(),
        structure.subrange(at, at + 4) == fdt::word(fdt::FDT_PROP),
        structure.subrange(at + 4, at + 8) == fdt::word(value.len() as u32),
        structure.subrange(at + 8, at + 12) == fdt::word(offset),
        structure.subrange(at + 12, at + 12 + value.len()) == value,
        zero_from(strings, offset as int) == offset + name.len(),
        strings.subrange(offset as int, offset + name.len()) == name,
    ensures
        read_items(structure, strings, at) == seq![Item::Property(name, value)] + read_items(
            structure,
            strings,
            aligned(at + 12 + value.len()),
        ),
{
    lemma_word(structure, at, fdt::FDT_PROP);
    lemma_word(structure, at + 4, value.len() as u32);
    lemma_word(structure, at + 8, offset);
}

proof fn lemma_padded(s: Seq<u8>)
    ensures
        fdt::padded(s).len() == aligned(s.len() as int),
        s.is_prefix_of(fdt::padded(s)),
{
    assert(s =~= fdt::padded(s).subrange(0, s.len() as int));
}

/// What the structure block holds of an item.
spec fn piece(items: Seq<Item>, n: nat) -> Seq<u8> {
    match items[n as int] {
        Item::Begin(name) => fdt::word(fdt::FDT_BEGIN_NODE) + name.push(0),
        Item::Property(name, value) => fdt::word(fdt::FDT_PROP) + fdt::word(value.len() as u32)
            + fdt::word(
            fdt::offset_of(fdt::names_of(items.take(n as int + 1)), name) as u32,
        ) + value,
        Item::End => fdt::word(fdt::FDT_END_NODE),
    }
}

/// Where an item stands, its piece does, and the next item behind it.
proof fn lemma_laid(items: Seq<Item>, n: nat, structure: Seq<u8>)
    requires
        n < items.len(),
        structure == fdt::structure_of(items) + fdt::word(fdt::FDT_END),
    ensures
        ({
            let at = fdt::structure_of(items.take(n as int)).len() as int;
            let next = fdt::structure_of(items.take(n as int + 1)).len() as int;
            let held = piece(items, n);
            &&& at % 4 == 0
            &&& next == aligned(at + held.len())
            &&& next <= structure.len() - 4
            &&& structure.subrange(at, at + held.len()) == held
        }),
{
    lemma_words();
    let next = items.take(n as int + 1);
    let before = fdt::structure_of(items.take(n as int));
    let after = fdt::structure_of(next);
    let at = before.len() as int;
    let held = piece(items, n);
    assert(next.drop_last() =~= items.take(n as int));
    assert(next.last() == items[n as int]);
    lemma_aligned(items.take(n as int));
    lemma_aligned(next);
    lemma_structure_grows(items, n + 1);
    let all = fdt::structure_of(items);
    let whole = before + held;
    lemma_padded(whole);
    assert(after == fdt::padded(whole)) by {
        match items[n as int] {
            Item::Begin(name) => {
                assert(whole =~= before + fdt::word(fdt::FDT_BEGIN_NODE) + name.push(0));
            },
            Item::Property(name, value) => {
                assert(whole =~= before + fdt::word(fdt::FDT_PROP) + fdt::word(
                    value.len() as u32,
                ) + fdt::word(fdt::offset_of(fdt::names_of(next), name) as u32) + value);
            },
            Item::End => {
                assert(fdt::padded(whole) =~= whole);
            },
        }
    }
    assert(after =~= all.subrange(0, after.len() as int));
    assert(structure.subrange(0, after.len() as int) =~= after);
    assert(after.subrange(0, whole.len() as int) =~= whole);
    assert(structure.subrange(at, at + held.len()) =~= held) by {
        assert forall|i: int| 0 <= i < held.len() implies structure[at + i] == held[i] by {
            assert(structure[at + i] == structure.subrange(0, after.len() as int)[at + i]);
            assert(after[at + i] == after.subrange(0, whole.len() as int)[at + i]);
            assert(whole[at + i] == held[i]);
        }
    }
}

/// The first piece of a block reads as its bytes do.
proof fn lemma_inside(structure: Seq<u8>, at: int, held: Seq<u8>, from: int, part: Seq<u8>)
    requires
        0 <= at,
        0 <= from,
        at + held.len() <= structure.len(),
        from + part.len() <= held.len(),
        structure.subrange(at, at + held.len()) == held,
        held.subrange(from, from + part.len()) == part,
    ensures
        structure.subrange(at + from, at + from + part.len()) == part,
{
    assert(structure.subrange(at + from, at + from + part.len()) =~= structure.subrange(
        at,
        at + held.len(),
    ).subrange(from, from + part.len()));
}

proof fn lemma_step_begin(items: Seq<Item>, n: nat, structure: Seq<u8>, name: Seq<u8>)
    requires
        n < items.len(),
        items[n as int] == Item::Begin(name),
        zero_free(name),
        structure == fdt::structure_of(items) + fdt::word(fdt::FDT_END),
    ensures
        ({
            let strings = fdt::strings_of(fdt::names_of(items));
            let at = fdt::structure_of(items.take(n as int)).len() as int;
            let next = fdt::structure_of(items.take(n as int + 1)).len() as int;
            read_items(structure, strings, at) == seq![Item::Begin(name)] + read_items(
                structure,
                strings,
                next,
            )
        }),
{
    lemma_words();
    lemma_laid(items, n, structure);
    let at = fdt::structure_of(items.take(n as int)).len() as int;
    let token = fdt::word(fdt::FDT_BEGIN_NODE);
    let held = token + name.push(0);
    assert(held.subrange(0, 4) =~= token);
    lemma_inside(structure, at, held, 0, token);
    assert(held.subrange(4, 4 + name.len() as int) =~= name);
    lemma_inside(structure, at, held, 4, name);
    assert(held.subrange(4 + name.len() as int, 5 + name.len() as int) =~= seq![0u8]);
    lemma_inside(structure, at, held, 4 + name.len() as int, seq![0u8]);
    assert(structure[at + 4 + name.len()] == structure.subrange(
        at + 4 + name.len(),
        at + 4 + name.len() + 1,
    )[0]);
    lemma_begin(structure, fdt::strings_of(fdt::names_of(items)), at, name);
}

proof fn lemma_step_property(
    items: Seq<Item>,
    n: nat,
    structure: Seq<u8>,
    name: Seq<u8>,
    value: Seq<u8>,
)
    requires
        n < items.len(),
        items[n as int] == Item::Property(name, value),
        zero_free(name),
        structure == fdt::structure_of(items) + fdt::word(fdt::FDT_END),
        structure.len() <= u32::MAX,
        fdt::strings_of(fdt::names_of(items)).len() <= u32::MAX,
    ensures
        ({
            let strings = fdt::strings_of(fdt::names_of(items));
            let at = fdt::structure_of(items.take(n as int)).len() as int;
            let next = fdt::structure_of(items.take(n as int + 1)).len() as int;
            read_items(structure, strings, at) == seq![Item::Property(name, value)] + read_items(
                structure,
                strings,
                next,
            )
        }),
{
    lemma_words();
    lemma_laid(items, n, structure);
    lemma_name(items, n, name, value);
    let strings = fdt::strings_of(fdt::names_of(items));
    let at = fdt::structure_of(items.take(n as int)).len() as int;
    let offset = fdt::offset_of(fdt::names_of(items.take(n as int + 1)), name) as u32;
    let a = fdt::word(fdt::FDT_PROP);
    let b = fdt::word(value.len() as u32);
    let c = fdt::word(offset);
    let held = a + b + c + value;
    assert(held.subrange(0, 4) =~= a);
    lemma_inside(structure, at, held, 0, a);
    assert(held.subrange(4, 8) =~= b);
    lemma_inside(structure, at, held, 4, b);
    assert(held.subrange(8, 12) =~= c);
    lemma_inside(structure, at, held, 8, c);
    assert(held.subrange(12, 12 + value.len() as int) =~= value);
    lemma_inside(structure, at, held, 12, value);
    lemma_property(structure, strings, at, name, value, offset);
}

/// From the place of an item on, the items from it on are read.
proof fn lemma_read(items: Seq<Item>, n: nat, structure: Seq<u8>)
    requires
        n <= items.len(),
        named(items),
        structure == fdt::structure_of(items) + fdt::word(fdt::FDT_END),
        structure.len() <= u32::MAX,
        fdt::strings_of(fdt::names_of(items)).len() <= u32::MAX,
    ensures
        read_items(
            structure,
            fdt::strings_of(fdt::names_of(items)),
            fdt::structure_of(items.take(n as int)).len() as int,
        ) == items.skip(n as int),
    decreases items.len() - n,
{
    lemma_words();
    let at = fdt::structure_of(items.take(n as int)).len() as int;
    if n == items.len() {
        assert(items.take(n as int) =~= items);
        assert(structure.subrange(at, at + 4) =~= fdt::word(fdt::FDT_END));
        lemma_word(structure, at, fdt::FDT_END);
        assert(items.skip(n as int) =~= Seq::<Item>::empty());
    } else {
        lemma_read(items, n + 1, structure);
        assert(seq![items[n as int]] + items.skip(n as int + 1) =~= items.skip(n as int));
        match items[n as int] {
            Item::Begin(name) => {
                lemma_step_begin(items, n, structure, name);
            },
            Item::Property(name, value) => {
                lemma_step_property(items, n, structure, name, value);
            },
            Item::End => {
                lemma_laid(items, n, structure);
                lemma_word(structure, at, fdt::FDT_END_NODE);
            },
        }
    }
}

/// A flattened tree is read back as it was described.
pub proof fn flattened_trees_are_read_back(items: Seq<Item>)
    requires
        named(items),
        fdt::blob_of(items).len() <= u32::MAX,
    ensures
        read_tree(fdt::blob_of(items)) == items,
        word_at(fdt::blob_of(items), 0) == 0xd00d_feed,
        word_at(fdt::blob_of(items), 4) == fdt::blob_of(items).len(),
{
    let blob = fdt::blob_of(items);
    let structure = fdt::structure_of(items) + fdt::word(fdt::FDT_END);
    let strings = fdt::strings_of(fdt::names_of(items));
    lemma_words();
    fdt::header_describes_the_blob(items);
    lemma_word(blob, 0, fdt::FDT_MAGIC);
    lemma_word(blob, 4, blob.len() as u32);
    lemma_word(blob, 8, 56);
    lemma_word(blob, 12, (56 + structure.len()) as u32);
    assert(blob.subrange(32, 36) =~= fdt::word(strings.len() as u32));
    lemma_word(blob, 32, strings.len() as u32);
    assert(blob.subrange(36, 40) =~= fdt::word(structure.len() as u32));
    lemma_word(blob, 36, structure.len() as u32);
    lemma_read(items, 0, structure);
    assert(items.take(0) =~= Seq::<Item>::empty());
    assert(items.skip(0) =~= items);
}

// The tree of a machine.

proof fn lemma_plain(s: &str)
    requires
        forall|i: int| 0 <= i < s@.len() ==> 0 < #[trigger] s@[i] as int && (s@[i] as int) < 128,
    ensures
        zero_free(fdt::text(s)),
{
    broadcast use vstd::string::is_ascii_spec_bytes;

    reveal(fdt::text);
    assert(vstd::string::is_ascii(s));
}

proof fn lemma_literals()
    ensures
        zero_free(fdt::text("#address-cells")),
        zero_free(fdt::text("#size-cells")),
        zero_free(fdt::text("compatible")),
        zero_free(fdt::text("model")),
        zero_free(fdt::text("bootargs")),
        zero_free(fdt::text("stdout-path")),
        zero_free(fdt::text("linux,initrd-start")),
        zero_free(fdt::text("linux,initrd-end")),
        zero_free(fdt::text("serial0")),
        zero_free(fdt::text("timebase-frequency")),
        zero_free(fdt::text("device_type")),
        zero_free(fdt::text("reg")),
        zero_free(fdt::text("status")),
        zero_free(fdt::text("riscv,isa")),
        zero_free(fdt::text("riscv,isa-base")),
        zero_free(fdt::text("riscv,isa-extensions")),
        zero_free(fdt::text("mmu-type")),
        zero_free(fdt::text("#interrupt-cells")),
        zero_free(fdt::text("interrupt-controller")),
        zero_free(fdt::text("phandle")),
        zero_free(fdt::text("ranges")),
        zero_free(fdt::text("clock-frequency")),
        zero_free(fdt::text("current-speed")),
        zero_free(fdt::text("reg-shift")),
        zero_free(fdt::text("reg-io-width")),
        zero_free(fdt::text("chosen")),
        zero_free(fdt::text("aliases")),
        zero_free(fdt::text("cpus")),
        zero_free(fdt::text("cpu@")),
        zero_free(fdt::text("memory@")),
        zero_free(fdt::text("soc")),
        zero_free(fdt::text("uart@")),
        zero_free(fdt::text("")),
{
    reveal_strlit("#address-cells");
    lemma_plain("#address-cells");
    reveal_strlit("#size-cells");
    lemma_plain("#size-cells");
    reveal_strlit("compatible");
    lemma_plain("compatible");
    reveal_strlit("model");
    lemma_plain("model");
    reveal_strlit("bootargs");
    lemma_plain("bootargs");
    reveal_strlit("stdout-path");
    lemma_plain("stdout-path");
    reveal_strlit("linux,initrd-start");
    lemma_plain("linux,initrd-start");
    reveal_strlit("linux,initrd-end");
    lemma_plain("linux,initrd-end");
    reveal_strlit("serial0");
    lemma_plain("serial0");
    reveal_strlit("timebase-frequency");
    lemma_plain("timebase-frequency");
    reveal_strlit("device_type");
    lemma_plain("device_type");
    reveal_strlit("reg");
    lemma_plain("reg");
    reveal_strlit("status");
    lemma_plain("status");
    reveal_strlit("riscv,isa");
    lemma_plain("riscv,isa");
    reveal_strlit("riscv,isa-base");
    lemma_plain("riscv,isa-base");
    reveal_strlit("riscv,isa-extensions");
    lemma_plain("riscv,isa-extensions");
    reveal_strlit("mmu-type");
    lemma_plain("mmu-type");
    reveal_strlit("#interrupt-cells");
    lemma_plain("#interrupt-cells");
    reveal_strlit("interrupt-controller");
    lemma_plain("interrupt-controller");
    reveal_strlit("phandle");
    lemma_plain("phandle");
    reveal_strlit("ranges");
    lemma_plain("ranges");
    reveal_strlit("clock-frequency");
    lemma_plain("clock-frequency");
    reveal_strlit("current-speed");
    lemma_plain("current-speed");
    reveal_strlit("reg-shift");
    lemma_plain("reg-shift");
    reveal_strlit("reg-io-width");
    lemma_plain("reg-io-width");
    reveal_strlit("chosen");
    lemma_plain("chosen");
    reveal_strlit("aliases");
    lemma_plain("aliases");
    reveal_strlit("cpus");
    lemma_plain("cpus");
    reveal_strlit("cpu@");
    lemma_plain("cpu@");
    reveal_strlit("memory@");
    lemma_plain("memory@");
    reveal_strlit("soc");
    lemma_plain("soc");
    reveal_strlit("uart@");
    lemma_plain("uart@");
    reveal_strlit("");
    lemma_plain("");
}

proof fn lemma_hex(value: u64)
    ensures
        zero_free(fdt::hex(value)),
    decreases value,
{
    if value >= 16 {
        lemma_hex(value / 16);
    }
}

proof fn lemma_cpus_named(count: nat)
    requires
        count <= u32::MAX,
    ensures
        named(fdt::all_cpu_items(count)),
    decreases count,
{
    if count > 0 {
        lemma_cpus_named((count - 1) as nat);
        lemma_literals();
        lemma_hex((count - 1) as u64);
        let front = fdt::all_cpu_items((count - 1) as nat);
        let all = fdt::all_cpu_items(count);
        assert(named(fdt::cpu_items((count - 1) as u64)));
        assert forall|k: int| 0 <= k < all.len() implies match #[trigger] all[k] {
            Item::Begin(name) => zero_free(name),
            Item::Property(name, _) => zero_free(name),
            Item::End => true,
        } by {
            if k < front.len() {
                assert(all[k] == front[k]);
            } else {
                assert(all[k] == fdt::cpu_items((count - 1) as u64)[k - front.len()]);
            }
        }
    }
}

proof fn lemma_joined(a: Seq<Item>, b: Seq<Item>)
    requires
        named(a),
        named(b),
    ensures
        named(a + b),
{
    assert forall|k: int| 0 <= k < (a + b).len() implies match #[trigger] (a + b)[k] {
        Item::Begin(name) => zero_free(name),
        Item::Property(name, _) => zero_free(name),
        Item::End => true,
    } by {
        if k < a.len() {
            assert((a + b)[k] == a[k]);
        } else {
            assert((a + b)[k] == b[k - a.len()]);
        }
    }
}

proof fn lemma_named(config: LinuxFdtConfig<'_>, harts: nat)
    requires
        harts <= u32::MAX,
    ensures
        named(fdt::linux_items(config, harts)),
{
    lemma_literals();
    lemma_hex(config.dram_base);
    lemma_hex(config.uart_base);
    lemma_cpus_named(harts);
    let a = fdt::root_items(config);
    let b = fdt::initrd_items(config);
    let c = fdt::cpus_items();
    let d = fdt::all_cpu_items(harts);
    let e = fdt::soc_items(config);
    assert(named(a));
    assert(named(b));
    assert(named(c));
    assert(named(e));
    lemma_joined(a, b);
    lemma_joined(a + b, c);
    lemma_joined(a + b + c, d);
    lemma_joined(a + b + c + d, e);
}

/// A node has a property: it stands behind the node's start, with only other
/// properties between.
pub open spec fn has(items: Seq<Item>, node: int, name: Seq<u8>, value: Seq<u8>) -> bool {
    &&& 0 <= node < items.len()
    &&& items[node] is Begin
    &&& exists|k: int|
        node < k < items.len() && #[trigger] items[k] == Item::Property(name, value) && forall|j: int|
            node < j < k ==> items[j] is Property
}

proof fn lemma_has(items: Seq<Item>, node: int, k: int, name: Seq<u8>, value: Seq<u8>)
    requires
        0 <= node < k < items.len(),
        items[node] is Begin,
        items[k] == Item::Property(name, value),
        forall|j: int| node < j < k ==> items[j] is Property,
    ensures
        has(items, node, name, value),
{
}

/// A range of addresses: where it starts and how many bytes it has.
pub open spec fn names_range(value: Seq<u8>, start: int, size: int) -> bool {
    &&& value.len() == 16
    &&& number(value.subrange(0, 8)) == start
    &&& number(value.subrange(8, 16)) == size
}

proof fn lemma_pair(first: u64, second: u64)
    ensures
        names_range(
            bytes::be_bytes(first as nat, 8) + bytes::be_bytes(second as nat, 8),
            first as int,
            second as int,
        ),
{
    bytes::lemma_limits();
    lemma_number(first as nat, 8);
    lemma_number(second as nat, 8);
    let value = bytes::be_bytes(first as nat, 8) + bytes::be_bytes(second as nat, 8);
    assert(value.subrange(0, 8) =~= bytes::be_bytes(first as nat, 8));
    assert(value.subrange(8, 16) =~= bytes::be_bytes(second as nat, 8));
}

/// A node of a kind has a range.
pub open spec fn has_range(
    tree: Seq<Item>,
    key: Seq<u8>,
    kind: Seq<u8>,
    start: int,
    size: int,
) -> bool {
    exists|node: int, range: Seq<u8>|
        has(tree, node, key, kind) && #[trigger] has(tree, node, fdt::text("reg"), range)
            && names_range(range, start, size)
}

/// A processor with Sv39 has a number.
pub open spec fn has_hart(tree: Seq<Item>, hart: nat) -> bool {
    exists|node: int, at: Seq<u8>|
        has(tree, node, fdt::text("device_type"), fdt::text("cpu").push(0)) && has(
            tree,
            node,
            fdt::text("mmu-type"),
            fdt::text("riscv,sv39").push(0),
        ) && #[trigger] has(tree, node, fdt::text("reg"), at) && number(at) == hart
}

/// The bounds of an initramfs in RAM.
pub open spec fn has_initramfs(tree: Seq<Item>, ram: Seq<u8>, initramfs: Seq<u8>) -> bool {
    exists|start: Seq<u8>, end: Seq<u8>|
        #[trigger] has(tree, 5, fdt::text("linux,initrd-start"), start) && #[trigger] has(
            tree,
            5,
            fdt::text("linux,initrd-end"),
            end,
        ) && ram.subrange(number(start) - DRAM_BASE, number(end) - DRAM_BASE) == initramfs
}

/// The last part of a description stands at its end, the first at its start.
proof fn lemma_parts(config: LinuxFdtConfig<'_>, harts: nat)
    ensures
        ({
            let items = fdt::linux_items(config, harts);
            let root = fdt::root_items(config);
            let initrd = fdt::initrd_items(config);
            let head = root + initrd + fdt::cpus_items();
            let cpus = fdt::all_cpu_items(harts);
            let soc = fdt::soc_items(config);
            &&& root.len() == 8
            &&& soc.len() == 20
            &&& items.len() == head.len() + cpus.len() + 20
            &&& forall|k: int|
                0 <= k < 20 ==> #[trigger] items[head.len() + cpus.len() + k] == soc[k]
            &&& forall|k: int| 0 <= k < 8 ==> #[trigger] items[k] == root[k]
            &&& forall|k: int| 0 <= k < initrd.len() ==> #[trigger] items[8 + k] == initrd[k]
            &&& forall|k: int|
                0 <= k < cpus.len() ==> #[trigger] items[head.len() + k] == cpus[k]
        }),
{
}

/// The tree of a machine, read back, has a memory node whose range starts at
/// the RAM's base and is as long as the RAM.
pub proof fn trees_describe_the_memory(config: LinuxFdtConfig<'_>, harts: nat)
    requires
        harts <= u32::MAX,
        fdt::linux_blob(config, harts).len() <= u32::MAX,
    ensures
        has_range(
            read_tree(fdt::linux_blob(config, harts)),
            fdt::text("device_type"),
            fdt::text("memory").push(0),
            config.dram_base as int,
            config.ram_bytes as int,
        ),
{
    let items = fdt::linux_items(config, harts);
    lemma_named(config, harts);
    flattened_trees_are_read_back(items);
    let tree = read_tree(fdt::linux_blob(config, harts));
    lemma_parts(config, harts);
    let head = fdt::root_items(config) + fdt::initrd_items(config) + fdt::cpus_items();
    let base = head.len() + fdt::all_cpu_items(harts).len() as int;
    let range = bytes::be_bytes(config.dram_base as nat, 8) + bytes::be_bytes(
        config.ram_bytes as nat,
        8,
    );
    lemma_pair(config.dram_base, config.ram_bytes);
    assert(items[base + 1] == fdt::soc_items(config)[1]);
    assert(items[base + 2] == fdt::soc_items(config)[2]);
    lemma_has(tree, base + 1, base + 2, fdt::text("device_type"), fdt::text("memory").push(0));
    assert(items[base + 3] == fdt::soc_items(config)[3]);
    lemma_has(tree, base + 1, base + 3, fdt::text("reg"), range);
}

/// The tree has a console of the kind `ns16550a` at the UART's range.
pub proof fn trees_describe_the_console(config: LinuxFdtConfig<'_>, harts: nat)
    requires
        harts <= u32::MAX,
        fdt::linux_blob(config, harts).len() <= u32::MAX,
    ensures
        has_range(
            read_tree(fdt::linux_blob(config, harts)),
            fdt::text("compatible"),
            fdt::text("ns16550a").push(0),
            config.uart_base as int,
            config.uart_bytes as int,
        ),
{
    let items = fdt::linux_items(config, harts);
    lemma_named(config, harts);
    flattened_trees_are_read_back(items);
    let tree = read_tree(fdt::linux_blob(config, harts));
    lemma_parts(config, harts);
    let head = fdt::root_items(config) + fdt::initrd_items(config) + fdt::cpus_items();
    let base = head.len() + fdt::all_cpu_items(harts).len() as int;
    let range = bytes::be_bytes(config.uart_base as nat, 8) + bytes::be_bytes(
        config.uart_bytes as nat,
        8,
    );
    lemma_pair(config.uart_base, config.uart_bytes);
    assert(items[base + 10] == fdt::soc_items(config)[10]);
    assert(items[base + 11] == fdt::soc_items(config)[11]);
    lemma_has(tree, base + 10, base + 11, fdt::text("compatible"), fdt::text("ns16550a").push(0));
    assert(items[base + 12] == fdt::soc_items(config)[12]);
    lemma_has(tree, base + 10, base + 12, fdt::text("reg"), range);
}

/// The tree hands the kernel its arguments, and the bounds of the initramfs
/// where there is one.
pub proof fn trees_hand_over_arguments_and_initramfs(config: LinuxFdtConfig<'_>, harts: nat)
    requires
        harts <= u32::MAX,
        fdt::linux_blob(config, harts).len() <= u32::MAX,
    ensures
        ({
            let tree = read_tree(fdt::linux_blob(config, harts));
            &&& tree.len() > 5 && tree[5] == Item::Begin(fdt::text("chosen"))
            &&& has(tree, 5, fdt::text("bootargs"), fdt::text(config.bootargs).push(0))
            &&& config.initrd_start is Some && config.initrd_end is Some ==> {
                let start = bytes::be_bytes(config.initrd_start->Some_0 as nat, 8);
                let end = bytes::be_bytes(config.initrd_end->Some_0 as nat, 8);
                &&& has(tree, 5, fdt::text("linux,initrd-start"), start)
                &&& has(tree, 5, fdt::text("linux,initrd-end"), end)
                &&& number(start) == config.initrd_start->Some_0
                &&& number(end) == config.initrd_end->Some_0
            }
        }),
{
    let items = fdt::linux_items(config, harts);
    lemma_named(config, harts);
    flattened_trees_are_read_back(items);
    let tree = read_tree(fdt::linux_blob(config, harts));
    lemma_parts(config, harts);
    let root = fdt::root_items(config);
    assert(items[5] == root[5] && items[6] == root[6] && items[7] == root[7]);
    lemma_has(tree, 5, 6, fdt::text("bootargs"), fdt::text(config.bootargs).push(0));
    if config.initrd_start is Some && config.initrd_end is Some {
        let start = bytes::be_bytes(config.initrd_start->Some_0 as nat, 8);
        let end = bytes::be_bytes(config.initrd_end->Some_0 as nat, 8);
        bytes::lemma_limits();
        lemma_number(config.initrd_start->Some_0 as nat, 8);
        lemma_number(config.initrd_end->Some_0 as nat, 8);
        let initrd = fdt::initrd_items(config);
        assert(items[8int + 0] == initrd[0] && items[8int + 1] == initrd[1]);
        lemma_has(tree, 5, 8, fdt::text("linux,initrd-start"), start);
        lemma_has(tree, 5, 9, fdt::text("linux,initrd-end"), end);
    }
}

proof fn lemma_cpu_place(count: nat, hart: nat)
    requires
        hart < count <= u32::MAX,
    ensures
        fdt::all_cpu_items(count).len() == 16 * count,
        forall|k: int|
            0 <= k < 16 ==> #[trigger] fdt::all_cpu_items(count)[16 * hart + k] == fdt::cpu_items(
                hart as u64,
            )[k],
    decreases count,
{
    let front = fdt::all_cpu_items((count - 1) as nat);
    let last = fdt::cpu_items((count - 1) as u64);
    if count > 1 {
        lemma_cpu_place((count - 1) as nat, 0);
    }
    if hart + 1 < count {
        lemma_cpu_place((count - 1) as nat, hart);
        assert forall|k: int| 0 <= k < 16 implies #[trigger] fdt::all_cpu_items(count)[16 * hart
            + k] == fdt::cpu_items(hart as u64)[k] by {
            assert(fdt::all_cpu_items(count)[16 * hart + k] == front[16 * hart + k]);
        }
    } else {
        assert(front.len() == 16 * hart);
        assert forall|k: int| 0 <= k < 16 implies #[trigger] fdt::all_cpu_items(count)[16 * hart
            + k] == fdt::cpu_items(hart as u64)[k] by {
            assert(fdt::all_cpu_items(count)[16 * hart + k] == last[k]);
        }
    }
}

/// The tree has one processor for each hart, under its number, with Sv39.
pub proof fn trees_describe_every_hart(config: LinuxFdtConfig<'_>, harts: nat, hart: nat)
    requires
        hart < harts <= u32::MAX,
        fdt::linux_blob(config, harts).len() <= u32::MAX,
    ensures
        has_hart(read_tree(fdt::linux_blob(config, harts)), hart),
{
    let items = fdt::linux_items(config, harts);
    lemma_named(config, harts);
    flattened_trees_are_read_back(items);
    let tree = read_tree(fdt::linux_blob(config, harts));
    lemma_parts(config, harts);
    lemma_cpu_place(harts, hart);
    let head = fdt::root_items(config) + fdt::initrd_items(config) + fdt::cpus_items();
    let node = head.len() + 16 * hart as int;
    let cpu = fdt::cpu_items(hart as u64);
    let all = fdt::all_cpu_items(harts);
    assert forall|k: int| 0 <= k < 16 implies #[trigger] items[node + k] == cpu[k] by {
        assert(items[head.len() + (16 * hart + k)] == all[16 * hart + k]);
    }
    let at = fdt::word(hart as u32);
    bytes::lemma_limits();
    lemma_number(hart as nat, 4);
    assert(items[node + 0] == cpu[0]);
    assert(items[node + 1] == cpu[1] && items[node + 2] == cpu[2] && items[node + 3] == cpu[3]);
    assert(items[node + 4] == cpu[4] && items[node + 5] == cpu[5] && items[node + 6] == cpu[6]);
    assert(items[node + 7] == cpu[7] && items[node + 8] == cpu[8]);
    lemma_has(tree, node, node + 1, fdt::text("device_type"), fdt::text("cpu").push(0));
    lemma_has(tree, node, node + 2, fdt::text("reg"), at);
    lemma_has(tree, node, node + 8, fdt::text("mmu-type"), fdt::text("riscv,sv39").push(0));
}

// The tree of a boot.

/// The tree that a booted guest finds is the one that describes the boot.
#[verifier::rlimit(40)]
proof fn lemma_found(m: MachineView, kernel: Seq<u8>, initramfs: Seq<u8>, bootargs: &str)
    requires
        boot::boot_refusal(m, kernel, initramfs, bootargs) is None,
        m.devices.ram.len() == m.config.ram_bytes,
        0 < m.harts.len() <= u32::MAX,
    ensures
        ({
            let ram = boot::booted(m, kernel, initramfs, bootargs).devices.ram;
            let place = boot::booted(m, kernel, initramfs, bootargs).reg(11) - DRAM_BASE;
            let config = boot::boot_config(m, kernel.len(), initramfs.len(), bootargs);
            let blob = fdt::linux_blob(config, m.harts.len());
            &&& blob.len() <= u32::MAX
            &&& ram.len() == m.devices.ram.len()
            &&& ram.subrange(place, place + word_at(ram, place + 4)) == blob
        }),
{
    let after = boot::booted(m, kernel, initramfs, bootargs);
    let config = boot::boot_config(m, kernel.len(), initramfs.len(), bootargs);
    let blob = fdt::linux_blob(config, m.harts.len());
    let items = fdt::linux_items(config, m.harts.len());
    let ram = after.devices.ram;
    let place = after.reg(11) - DRAM_BASE;
    boot::boot_places_kernel_and_tree(m, kernel, initramfs, bootargs);
    lemma_named(config, m.harts.len());
    flattened_trees_are_read_back(items);
    assert(ram.subrange(place, place + blob.len()) == blob);
    assert(ram.subrange(place + 4, place + 8) =~= ram.subrange(place, place + blob.len()).subrange(
        4,
        8,
    ));
}

proof fn lemma_copied(m: MachineView, kernel: Seq<u8>, initramfs: Seq<u8>, bootargs: &str)
    requires
        boot::boot_refusal(m, kernel, initramfs, bootargs) is None,
        m.devices.ram.len() == m.config.ram_bytes <= MAX_RAM_BYTES,
        initramfs.len() > 0,
    ensures
        ({
            let ram = boot::booted(m, kernel, initramfs, bootargs).devices.ram;
            let config = boot::boot_config(m, kernel.len(), initramfs.len(), bootargs);
            &&& config.initrd_start is Some
            &&& config.initrd_end is Some
            &&& ram.subrange(
                config.initrd_start->Some_0 - DRAM_BASE,
                config.initrd_end->Some_0 - DRAM_BASE,
            ) == initramfs
        }),
{
    let ram = boot::booted(m, kernel, initramfs, bootargs).devices.ram;
    let config = boot::boot_config(m, kernel.len(), initramfs.len(), bootargs);
    let at = config.initrd_start->Some_0 - DRAM_BASE;
    assert(config.initrd_end->Some_0 - DRAM_BASE == at + initramfs.len());
    assert(ram.subrange(at, at + initramfs.len()) =~= initramfs);
}

/// A booted guest reads, at the address in `a1`, a tree whose memory is exactly
/// the machine's RAM. Where there is an initramfs, its bytes stand between the
/// bounds that the tree names.
pub proof fn booted_guests_find_their_memory(
    m: MachineView,
    kernel: Seq<u8>,
    initramfs: Seq<u8>,
    bootargs: &str,
)
    requires
        boot::boot_refusal(m, kernel, initramfs, bootargs) is None,
        m.devices.ram.len() == m.config.ram_bytes <= MAX_RAM_BYTES,
        0 < m.harts.len() <= u32::MAX,
    ensures
        ({
            let after = boot::booted(m, kernel, initramfs, bootargs);
            let place = after.reg(11) - DRAM_BASE;
            let ram = after.devices.ram;
            let tree = read_tree(ram.subrange(place, place + word_at(ram, place + 4)));
            &&& has_range(
                tree,
                fdt::text("device_type"),
                fdt::text("memory").push(0),
                DRAM_BASE as int,
                ram.len() as int,
            )
            &&& initramfs.len() > 0 ==> has_initramfs(tree, ram, initramfs)
        }),
{
    let config = boot::boot_config(m, kernel.len(), initramfs.len(), bootargs);
    lemma_found(m, kernel, initramfs, bootargs);
    trees_describe_the_memory(config, m.harts.len());
    trees_hand_over_arguments_and_initramfs(config, m.harts.len());
    if initramfs.len() > 0 {
        lemma_copied(m, kernel, initramfs, bootargs);
        let ram = boot::booted(m, kernel, initramfs, bootargs).devices.ram;
        let tree = read_tree(fdt::linux_blob(config, m.harts.len()));
        let start = bytes::be_bytes(config.initrd_start->Some_0 as nat, 8);
        let end = bytes::be_bytes(config.initrd_end->Some_0 as nat, 8);
        assert(has(tree, 5, fdt::text("linux,initrd-start"), start));
        assert(has(tree, 5, fdt::text("linux,initrd-end"), end));
    }
}

} // verus!
