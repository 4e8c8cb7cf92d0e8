//! Deterministic flattened device tree of the `aos-rv64-virt-v0` profile.

use crate::bytes;
use crate::bytes::{push_be32, push_be64, push_bytes, same_bytes};
use vstd::prelude::*;
use vstd::string::*;

verus! {

pub const FDT_MAGIC: u32 = 0xd00d_feed;

pub const FDT_VERSION: u32 = 17;

pub const FDT_LAST_COMPATIBLE_VERSION: u32 = 16;

pub const FDT_BEGIN_NODE: u32 = 1;

pub const FDT_END_NODE: u32 = 2;

pub const FDT_PROP: u32 = 3;

pub const FDT_END: u32 = 9;

pub const HEADER_BYTES: usize = 40;

pub const RESERVATION_MAP_BYTES: usize = 16;

/// Deterministic counter frequency advertised to Linux. Guest time advances by
/// one tick per charged machine step; this value defines the guest-visible unit,
/// not an ambient host-clock coupling.
pub const TIMEBASE_FREQUENCY: u32 = 10_000_000;

/// What the tree says about one machine.
pub struct LinuxFdtConfig<'a> {
    pub dram_base: u64,
    pub ram_bytes: u64,
    pub uart_base: u64,
    pub uart_bytes: u64,
    pub bootargs: &'a str,
    pub initrd_start: Option<u64>,
    pub initrd_end: Option<u64>,
}

/// One event in the description of a tree.
pub enum Item {
    Begin(Seq<u8>),
    Property(Seq<u8>, Seq<u8>),
    End,
}

/// Zero bytes up to the next multiple of four.
pub open spec fn padded(s: Seq<u8>) -> Seq<u8> {
    s + Seq::new(((4 - s.len() % 4) % 4) as nat, |i: int| 0u8)
}

/// Property names of a tree, each once, in the order of their first use.
pub open spec fn names_of(items: Seq<Item>) -> Seq<Seq<u8>>
    decreases items.len(),
{
    if items.len() == 0 {
        Seq::empty()
    } else {
        let before = names_of(items.drop_last());
        match items.last() {
            Item::Property(name, _) => if before.contains(name) {
                before
            } else {
                before.push(name)
            },
            _ => before,
        }
    }
}

/// The strings block: names one after the other, each ended by a zero.
pub open spec fn strings_of(names: Seq<Seq<u8>>) -> Seq<u8>
    decreases names.len(),
{
    if names.len() == 0 {
        Seq::empty()
    } else {
        strings_of(names.drop_last()) + names.last().push(0)
    }
}

/// Where a name starts in the strings block.
pub open spec fn offset_of(names: Seq<Seq<u8>>, name: Seq<u8>) -> nat
    decreases names.len(),
{
    if names.len() == 0 {
        0
    } else if names.last() == name {
        strings_of(names.drop_last()).len()
    } else {
        offset_of(names.drop_last(), name)
    }
}

pub open spec fn word(value: u32) -> Seq<u8> {
    bytes::be_bytes(value as nat, 4)
}

/// The structure block without its end token.
pub open spec fn structure_of(items: Seq<Item>) -> Seq<u8>
    decreases items.len(),
{
    if items.len() == 0 {
        Seq::empty()
    } else {
        let before = structure_of(items.drop_last());
        match items.last() {
            Item::Begin(name) => padded(before + word(FDT_BEGIN_NODE) + name.push(0)),
            Item::Property(name, value) => padded(
                before + word(FDT_PROP) + word(value.len() as u32) + word(
                    offset_of(names_of(items), name) as u32,
                ) + value,
            ),
            Item::End => before + word(FDT_END_NODE),
        }
    }
}

/// The ten header words.
pub open spec fn header_of(structure: nat, strings: nat) -> Seq<u8> {
    word(FDT_MAGIC) + word((56 + structure + strings) as u32) + word(56) + word(
        (56 + structure) as u32,
    ) + word(40) + word(FDT_VERSION) + word(FDT_LAST_COMPATIBLE_VERSION) + word(0) + word(
        strings as u32,
    ) + word(structure as u32)
}

/// The flattened tree.
pub open spec fn blob_of(items: Seq<Item>) -> Seq<u8> {
    let structure = structure_of(items) + word(FDT_END);
    let strings = strings_of(names_of(items));
    header_of(structure.len(), strings.len()) + Seq::new(16, |i: int| 0u8) + structure + strings
}

/// The bytes of a text.
#[verifier::opaque]
pub open spec fn text(s: &str) -> Seq<u8> {
    s.spec_bytes()
}

pub open spec fn string_item(name: &str, value: &str) -> Item {
    Item::Property(text(name), text(value).push(0))
}

pub open spec fn u32_item(name: &str, value: u32) -> Item {
    Item::Property(text(name), word(value))
}

pub open spec fn u64_item(name: &str, value: u64) -> Item {
    Item::Property(text(name), bytes::be_bytes(value as nat, 8))
}

pub open spec fn pair_item(name: &str, first: u64, second: u64) -> Item {
    Item::Property(
        text(name),
        bytes::be_bytes(first as nat, 8) + bytes::be_bytes(second as nat, 8),
    )
}

pub open spec fn empty_item(name: &str) -> Item {
    Item::Property(text(name), Seq::empty())
}

pub open spec fn begin_item(name: &str) -> Item {
    Item::Begin(text(name))
}

pub open spec fn hex_digit(value: u64) -> u8 {
    if value < 10 {
        (48 + value) as u8
    } else {
        (87 + value) as u8
    }
}

/// Lower-case hexadecimal digits without leading zeros.
pub open spec fn hex(value: u64) -> Seq<u8>
    decreases value,
{
    if value < 16 {
        seq![hex_digit(value)]
    } else {
        hex(value / 16).push(hex_digit(value % 16))
    }
}

/// Name of a node that carries its address.
pub open spec fn unit_name(prefix: &str, address: u64) -> Seq<u8> {
    text(prefix) + hex(address)
}

pub open spec fn root_items(config: LinuxFdtConfig<'_>) -> Seq<Item> {
    seq![
        begin_item(""),
        u32_item("#address-cells", 2),
        u32_item("#size-cells", 2),
        string_item("compatible", "aos,aos-rv64-virt-v0"),
        string_item("model", "AOS RV64 virtual machine v0"),
        begin_item("chosen"),
        string_item("bootargs", config.bootargs),
        string_item("stdout-path", "serial0:115200n8"),
    ]
}

/// Initramfs bounds, present only when both are known.
pub open spec fn initrd_items(config: LinuxFdtConfig<'_>) -> Seq<Item> {
    match (config.initrd_start, config.initrd_end) {
        (Some(start), Some(end)) => seq![
            u64_item("linux,initrd-start", start),
            u64_item("linux,initrd-end", end),
        ],
        _ => Seq::empty(),
    }
}

pub open spec fn cpus_items() -> Seq<Item> {
    seq![
        Item::End,
        begin_item("aliases"),
        string_item("serial0", "/soc/uart@10000000"),
        Item::End,
        begin_item("cpus"),
        u32_item("#address-cells", 1),
        u32_item("#size-cells", 0),
        u32_item("timebase-frequency", TIMEBASE_FREQUENCY),
    ]
}

/// One hart and its interrupt controller.
pub open spec fn cpu_items(hart: u64) -> Seq<Item> {
    seq![
        Item::Begin(unit_name("cpu@", hart)),
        string_item("device_type", "cpu"),
        u32_item("reg", hart as u32),
        string_item("status", "okay"),
        string_item("compatible", "riscv"),
        string_item("riscv,isa", "rv64ima_zicsr_zifencei"),
        string_item("riscv,isa-base", "rv64i"),
        Item::Property(
            text("riscv,isa-extensions"),
            text("i").push(0) + text("m").push(0) + text("a").push(0) + text("zicsr").push(0)
                + text("zifencei").push(0),
        ),
        string_item("mmu-type", "riscv,sv39"),
        begin_item("interrupt-controller"),
        u32_item("#interrupt-cells", 1),
        empty_item("interrupt-controller"),
        string_item("compatible", "riscv,cpu-intc"),
        u32_item("phandle", (hart + 1) as u32),
        Item::End,
        Item::End,
    ]
}

pub open spec fn all_cpu_items(count: nat) -> Seq<Item>
    decreases count,
{
    if count == 0 {
        Seq::empty()
    } else {
        all_cpu_items((count - 1) as nat) + cpu_items((count - 1) as u64)
    }
}

pub open spec fn soc_items(config: LinuxFdtConfig<'_>) -> Seq<Item> {
    seq![
        Item::End,
        Item::Begin(unit_name("memory@", config.dram_base)),
        string_item("device_type", "memory"),
        pair_item("reg", config.dram_base, config.ram_bytes),
        Item::End,
        begin_item("soc"),
        u32_item("#address-cells", 2),
        u32_item("#size-cells", 2),
        string_item("compatible", "simple-bus"),
        empty_item("ranges"),
        Item::Begin(unit_name("uart@", config.uart_base)),
        string_item("compatible", "ns16550a"),
        pair_item("reg", config.uart_base, config.uart_bytes),
        u32_item("clock-frequency", 3_686_400),
        u32_item("current-speed", 115_200),
        u32_item("reg-shift", 0),
        u32_item("reg-io-width", 1),
        Item::End,
        Item::End,
        Item::End,
    ]
}

/// The whole description of a machine with `harts` harts.
pub open spec fn linux_items(config: LinuxFdtConfig<'_>, harts: nat) -> Seq<Item> {
    root_items(config) + initrd_items(config) + cpus_items() + all_cpu_items(harts) + soc_items(
        config,
    )
}

pub open spec fn linux_blob(config: LinuxFdtConfig<'_>, harts: nat) -> Seq<u8> {
    blob_of(linux_items(config, harts))
}

/// A tree under construction.
struct Tree {
    structure: Vec<u8>,
    strings: Vec<u8>,
    names: Vec<(Vec<u8>, u32)>,
    items: Ghost<Seq<Item>>,
}

fn pad_to_four(out: &mut Vec<u8>)
    ensures
        final(out)@ == padded(old(out)@),
{
    let rest: usize = (4 - out.len() % 4) % 4;
    let ghost start = out@;
    let mut i: usize = 0;
    while i < rest
        invariant
            i <= rest,
            out@ == start + Seq::new(i as nat, |k: int| 0u8),
        decreases rest - i,
    {
        out.push(0);
        i = i + 1;
        assert(out@ =~= start + Seq::new(i as nat, |k: int| 0u8));
    }
    assert(out@ =~= padded(start));
}

/// The lower-case hexadecimal digits of a number, appended.
fn push_hex(out: &mut Vec<u8>, value: u64)
    ensures
        final(out)@ == old(out)@ + hex(value),
    decreases value,
{
    let ghost start = out@;
    let low: u64 = value % 16;
    if value >= 16 {
        push_hex(out, value / 16);
    }
    let digit: u8 = if low < 10 {
        48 + low as u8
    } else {
        87 + low as u8
    };
    out.push(digit);
    assert(out@ =~= start + hex(value));
}

fn push_text(out: &mut Vec<u8>, value: &str)
    ensures
        final(out)@ == old(out)@ + text(value),
{
    proof {
        reveal(text);
    }
    push_bytes(out, value.as_bytes());
}

fn push_terminated(out: &mut Vec<u8>, value: &str)
    ensures
        final(out)@ == old(out)@ + text(value).push(0),
{
    let ghost start = out@;
    push_text(out, value);
    out.push(0);
    assert(out@ =~= start + text(value).push(0));
}

impl Tree {
    #[verifier::opaque]
    spec fn wf(&self) -> bool {
        let names = names_of(self.items@);
        &&& self.structure@ == structure_of(self.items@)
        &&& self.strings@ == strings_of(names)
        &&& self.names@.len() == names.len()
        &&& forall|k: int|
            0 <= k < names.len() ==> (#[trigger] self.names@[k]).0@ == names[k] && self.names@[k].1
                == strings_of(names.subrange(0, k)).len() as u32
    }

    fn new() -> (r: Self)
        ensures
            r.wf(),
            r.items@ == Seq::<Item>::empty(),
    {
        proof {
            reveal(Tree::wf);
        }
        Tree {
            structure: Vec::new(),
            strings: Vec::new(),
            names: Vec::new(),
            items: Ghost(Seq::empty()),
        }
    }

    fn begin_named(&mut self, name: &[u8])
        requires
            old(self).wf(),
        ensures
            final(self).wf(),
            final(self).items@ == old(self).items@.push(Item::Begin(name@)),
    {
        proof {
            reveal(Tree::wf);
        }
        let ghost before = self.structure@;
        push_be32(&mut self.structure, FDT_BEGIN_NODE);
        push_bytes(&mut self.structure, name);
        self.structure.push(0);
        assert(self.structure@ =~= before + word(FDT_BEGIN_NODE) + name@.push(0));
        pad_to_four(&mut self.structure);
        proof {
            self.items@ = self.items@.push(Item::Begin(name@));
            assert(self.items@.drop_last() =~= old(self).items@);
        }
    }

    fn begin_node(&mut self, name: &str)
        requires
            old(self).wf(),
        ensures
            final(self).wf(),
            final(self).items@ == old(self).items@.push(begin_item(name)),
    {
        proof {
            reveal(text);
        }
        self.begin_named(name.as_bytes());
    }

    fn begin_unit(&mut self, prefix: &str, address: u64)
        requires
            old(self).wf(),
        ensures
            final(self).wf(),
            final(self).items@ == old(self).items@.push(Item::Begin(unit_name(prefix, address))),
    {
        let mut name: Vec<u8> = Vec::new();
        push_text(&mut name, prefix);
        push_hex(&mut name, address);
        assert(name@ =~= unit_name(prefix, address));
        self.begin_named(name.as_slice());
    }

    fn end_node(&mut self)
        requires
            old(self).wf(),
        ensures
            final(self).wf(),
            final(self).items@ == old(self).items@.push(Item::End),
    {
        proof {
            reveal(Tree::wf);
        }
        push_be32(&mut self.structure, FDT_END_NODE);
        proof {
            self.items@ = self.items@.push(Item::End);
            assert(self.items@.drop_last() =~= old(self).items@);
        }
    }

    /// Offset of a name in the strings block, which gains it if it is new.
    fn string_offset(&mut self, name: &[u8]) -> (r: u32)
        requires
            old(self).wf(),
        ensures
            ({
                let names = names_of(old(self).items@);
                let after = if names.contains(name@) {
                    names
                } else {
                    names.push(name@)
                };
                &&& r == offset_of(after, name@) as u32
                &&& final(self).items@ == old(self).items@
                &&& final(self).structure@ == old(self).structure@
                &&& final(self).strings@ == strings_of(after)
                &&& final(self).names@.len() == after.len()
                &&& forall|k: int|
                    0 <= k < after.len() ==> (#[trigger] final(self).names@[k]).0@ == after[k]
                        && final(self).names@[k].1 == strings_of(after.subrange(0, k)).len() as u32
            }),
    {
        proof {
            reveal(Tree::wf);
        }
        let ghost names = names_of(self.items@);
        let mut k: usize = self.names.len();
        assert(names.subrange(0, names.len() as int) =~= names);
        while k > 0
            invariant
                self.wf(),
                *self == *old(self),
                names == names_of(self.items@),
                k <= self.names@.len(),
                forall|j: int| k <= j < names.len() ==> names[j] != name@,
                offset_of(names, name@) == offset_of(names.subrange(0, k as int), name@),
            decreases k,
        {
            proof {
                reveal(Tree::wf);
                let prefix = names.subrange(0, k as int);
                assert(prefix.drop_last() =~= names.subrange(0, k - 1));
                assert(prefix.last() == names[k - 1]);
            }
            if same_bytes(self.names[k - 1].0.as_slice(), name) {
                assert(names[k - 1] == name@);
                assert(names.contains(name@));
                return self.names[k - 1].1;
            }
            k = k - 1;
        }
        assert(!names.contains(name@));
        let ghost after = names.push(name@);
        let offset: u32 = self.strings.len() as u32;
        let ghost strings = self.strings@;
        push_bytes(&mut self.strings, name);
        self.strings.push(0);
        assert(after.drop_last() =~= names);
        assert(self.strings@ =~= strings + name@.push(0));
        let copy: Vec<u8> = bytes::copy_range(name, 0, name.len());
        assert(copy@ =~= name@);
        self.names.push((copy, offset));
        assert forall|j: int| 0 <= j < after.len() implies (#[trigger] self.names@[j]).0@
            == after[j] && self.names@[j].1 == strings_of(after.subrange(0, j)).len() as u32 by {
            if j < names.len() {
                assert(after.subrange(0, j) =~= names.subrange(0, j));
            } else {
                assert(after.subrange(0, j) =~= names);
            }
        }
        offset
    }

    fn property(&mut self, name: &str, value: &[u8])
        requires
            old(self).wf(),
        ensures
            final(self).wf(),
            final(self).items@ == old(self).items@.push(Item::Property(text(name), value@)),
    {
        proof {
            reveal(text);
            reveal(Tree::wf);
        }
        let ghost before = self.structure@;
        let offset: u32 = self.string_offset(name.as_bytes());
        push_be32(&mut self.structure, FDT_PROP);
        push_be32(&mut self.structure, value.len() as u32);
        push_be32(&mut self.structure, offset);
        push_bytes(&mut self.structure, value);
        assert(self.structure@ =~= before + word(FDT_PROP) + word(value@.len() as u32) + word(
            offset,
        ) + value@);
        pad_to_four(&mut self.structure);
        proof {
            self.items@ = self.items@.push(Item::Property(text(name), value@));
            assert(self.items@.drop_last() =~= old(self).items@);
        }
    }

    fn property_empty(&mut self, name: &str)
        requires
            old(self).wf(),
        ensures
            final(self).wf(),
            final(self).items@ == old(self).items@.push(empty_item(name)),
    {
        let value: Vec<u8> = Vec::new();
        self.property(name, value.as_slice());
    }

    fn property_string(&mut self, name: &str, value: &str)
        requires
            old(self).wf(),
        ensures
            final(self).wf(),
            final(self).items@ == old(self).items@.push(string_item(name, value)),
    {
        let mut out: Vec<u8> = Vec::new();
        push_terminated(&mut out, value);
        assert(out@ =~= text(value).push(0));
        self.property(name, out.as_slice());
    }

    fn property_u32(&mut self, name: &str, value: u32)
        requires
            old(self).wf(),
        ensures
            final(self).wf(),
            final(self).items@ == old(self).items@.push(u32_item(name, value)),
    {
        let mut out: Vec<u8> = Vec::new();
        push_be32(&mut out, value);
        assert(out@ =~= word(value));
        self.property(name, out.as_slice());
    }

    fn property_u64(&mut self, name: &str, value: u64)
        requires
            old(self).wf(),
        ensures
            final(self).wf(),
            final(self).items@ == old(self).items@.push(u64_item(name, value)),
    {
        let mut out: Vec<u8> = Vec::new();
        push_be64(&mut out, value);
        assert(out@ =~= bytes::be_bytes(value as nat, 8));
        self.property(name, out.as_slice());
    }

    fn property_u64_pair(&mut self, name: &str, first: u64, second: u64)
        requires
            old(self).wf(),
        ensures
            final(self).wf(),
            final(self).items@ == old(self).items@.push(pair_item(name, first, second)),
    {
        let mut out: Vec<u8> = Vec::new();
        push_be64(&mut out, first);
        push_be64(&mut out, second);
        assert(out@ =~= bytes::be_bytes(first as nat, 8) + bytes::be_bytes(second as nat, 8));
        self.property(name, out.as_slice());
    }

    fn root(&mut self, config: &LinuxFdtConfig<'_>)
        requires
            old(self).wf(),
        ensures
            final(self).wf(),
            final(self).items@ == old(self).items@ + root_items(*config),
    {
        self.begin_node("");
        self.property_u32("#address-cells", 2);
        self.property_u32("#size-cells", 2);
        self.property_string("compatible", "aos,aos-rv64-virt-v0");
        self.property_string("model", "AOS RV64 virtual machine v0");
        self.begin_node("chosen");
        self.property_string("bootargs", config.bootargs);
        self.property_string("stdout-path", "serial0:115200n8");
        assert(self.items@ =~= old(self).items@ + root_items(*config));
    }

    fn initrd(&mut self, config: &LinuxFdtConfig<'_>)
        requires
            old(self).wf(),
        ensures
            final(self).wf(),
            final(self).items@ == old(self).items@ + initrd_items(*config),
    {
        if let (Some(start), Some(end)) = (config.initrd_start, config.initrd_end) {
            self.property_u64("linux,initrd-start", start);
            self.property_u64("linux,initrd-end", end);
        }
        assert(self.items@ =~= old(self).items@ + initrd_items(*config));
    }

    fn cpus(&mut self)
        requires
            old(self).wf(),
        ensures
            final(self).wf(),
            final(self).items@ == old(self).items@ + cpus_items(),
    {
        self.end_node();
        self.begin_node("aliases");
        self.property_string("serial0", "/soc/uart@10000000");
        self.end_node();
        self.begin_node("cpus");
        self.property_u32("#address-cells", 1);
        self.property_u32("#size-cells", 0);
        self.property_u32("timebase-frequency", TIMEBASE_FREQUENCY);
        assert(self.items@ =~= old(self).items@ + cpus_items());
    }

    fn cpu(&mut self, hart: u64)
        requires
            old(self).wf(),
            hart < u64::MAX,
        ensures
            final(self).wf(),
            final(self).items@ == old(self).items@ + cpu_items(hart),
    {
        self.begin_unit("cpu@", hart);
        self.property_string("device_type", "cpu");
        self.property_u32("reg", hart as u32);
        self.property_string("status", "okay");
        self.property_string("compatible", "riscv");
        self.property_string("riscv,isa", "rv64ima_zicsr_zifencei");
        self.property_string("riscv,isa-base", "rv64i");
        let mut extensions: Vec<u8> = Vec::new();
        push_terminated(&mut extensions, "i");
        push_terminated(&mut extensions, "m");
        push_terminated(&mut extensions, "a");
        push_terminated(&mut extensions, "zicsr");
        push_terminated(&mut extensions, "zifencei");
        assert(extensions@ =~= text("i").push(0) + text("m").push(0) + text("a").push(0) + text(
            "zicsr",
        ).push(0) + text("zifencei").push(0));
        self.property("riscv,isa-extensions", extensions.as_slice());
        self.property_string("mmu-type", "riscv,sv39");
        self.begin_node("interrupt-controller");
        self.property_u32("#interrupt-cells", 1);
        self.property_empty("interrupt-controller");
        self.property_string("compatible", "riscv,cpu-intc");
        self.property_u32("phandle", (hart + 1) as u32);
        self.end_node();
        self.end_node();
        assert(self.items@ =~= old(self).items@ + cpu_items(hart));
    }

    fn soc(&mut self, config: &LinuxFdtConfig<'_>)
        requires
            old(self).wf(),
        ensures
            final(self).wf(),
            final(self).items@ == old(self).items@ + soc_items(*config),
    {
        self.end_node();
        self.begin_unit("memory@", config.dram_base);
        self.property_string("device_type", "memory");
        self.property_u64_pair("reg", config.dram_base, config.ram_bytes);
        self.end_node();
        self.begin_node("soc");
        self.property_u32("#address-cells", 2);
        self.property_u32("#size-cells", 2);
        self.property_string("compatible", "simple-bus");
        self.property_empty("ranges");
        self.begin_unit("uart@", config.uart_base);
        self.property_string("compatible", "ns16550a");
        self.property_u64_pair("reg", config.uart_base, config.uart_bytes);
        self.property_u32("clock-frequency", 3_686_400);
        self.property_u32("current-speed", 115_200);
        self.property_u32("reg-shift", 0);
        self.property_u32("reg-io-width", 1);
        self.end_node();
        self.end_node();
        self.end_node();
        assert(self.items@ =~= old(self).items@ + soc_items(*config));
    }

    /// The flattened tree, unless a length would not fit its header field.
    fn finish(self) -> (r: Option<Vec<u8>>)
        requires
            self.wf(),
        ensures
            r is Some <==> blob_of(self.items@).len() <= u32::MAX,
            r matches Some(blob) ==> blob@ == blob_of(self.items@),
    {
        proof {
            reveal(Tree::wf);
        }
        let ghost items = self.items@;
        let mut structure: Vec<u8> = self.structure;
        push_be32(&mut structure, FDT_END);
        let strings: Vec<u8> = self.strings;
        proof {
            lemma_words();
            lemma_blob_len(items);
        }
        if structure.len() as u64 > 0xffff_ffc7 || strings.len() as u64 > 0xffff_ffc7
            - structure.len() as u64 {
            return None;
        }
        let total: u64 = 56 + structure.len() as u64 + strings.len() as u64;
        let mut out: Vec<u8> = Vec::new();
        push_be32(&mut out, FDT_MAGIC);
        push_be32(&mut out, total as u32);
        push_be32(&mut out, 56);
        push_be32(&mut out, (56 + structure.len()) as u32);
        push_be32(&mut out, 40);
        push_be32(&mut out, FDT_VERSION);
        push_be32(&mut out, FDT_LAST_COMPATIBLE_VERSION);
        push_be32(&mut out, 0);
        push_be32(&mut out, strings.len() as u32);
        push_be32(&mut out, structure.len() as u32);
        assert(out@ =~= header_of(structure@.len(), strings@.len()));
        let mut i: usize = 0;
        while i < 16
            invariant
                i <= 16,
                out@ == header_of(structure@.len(), strings@.len()) + Seq::new(
                    i as nat,
                    |k: int| 0u8,
                ),
            decreases 16 - i,
        {
            out.push(0);
            i = i + 1;
            assert(out@ =~= header_of(structure@.len(), strings@.len()) + Seq::new(
                i as nat,
                |k: int| 0u8,
            ));
        }
        push_bytes(&mut out, structure.as_slice());
        push_bytes(&mut out, strings.as_slice());
        assert(out@ =~= blob_of(items));
        Some(out)
    }
}

proof fn lemma_words()
    ensures
        forall|value: u32| #[trigger] word(value).len() == 4,
{
    assert forall|value: u32| #[trigger] word(value).len() == 4 by {
        bytes::lemma_be_bytes_len(value as nat, 4);
    }
}

proof fn lemma_blob_len(items: Seq<Item>)
    ensures
        blob_of(items).len() == 60 + structure_of(items).len() + strings_of(names_of(items)).len(),
{
    lemma_words();
}

/// Device tree for a machine of several harts; `None` when the tree would be
/// too large for the format.
pub fn build_linux_fdt_for_harts(config: &LinuxFdtConfig<'_>, hart_count: usize) -> (r: Option<
    Vec<u8>,
>)
    requires
        hart_count <= u32::MAX,
    ensures
        r is Some <==> linux_blob(*config, hart_count as nat).len() <= u32::MAX,
        r matches Some(blob) ==> blob@ == linux_blob(*config, hart_count as nat),
{
    let mut tree = Tree::new();
    tree.root(config);
    tree.initrd(config);
    tree.cpus();
    let ghost head = root_items(*config) + initrd_items(*config) + cpus_items();
    assert(tree.items@ =~= head);
    let mut hart: usize = 0;
    assert(tree.items@ =~= head + all_cpu_items(0));
    while hart < hart_count
        invariant
            hart <= hart_count <= u32::MAX,
            tree.wf(),
            tree.items@ == head + all_cpu_items(hart as nat),
        decreases hart_count - hart,
    {
        tree.cpu(hart as u64);
        hart = hart + 1;
        assert(tree.items@ =~= head + all_cpu_items(hart as nat));
    }
    tree.soc(config);
    assert(tree.items@ =~= linux_items(*config, hart_count as nat));
    tree.finish()
}

/// Device tree for a machine of one hart.
pub fn build_linux_fdt(config: &LinuxFdtConfig<'_>) -> (r: Vec<u8>)
    requires
        linux_blob(*config, 1).len() <= u32::MAX,
    ensures
        r@ == linux_blob(*config, 1),
{
    match build_linux_fdt_for_harts(config, 1) {
        Some(blob) => blob,
        None => Vec::new(),
    }
}

/// The header of a flattened tree states its total size, and where its
/// structure and strings blocks start and how long they are.
pub proof fn header_describes_the_blob(items: Seq<Item>)
    requires
        blob_of(items).len() <= u32::MAX,
    ensures
        ({
            let blob = blob_of(items);
            let structure = structure_of(items) + word(FDT_END);
            let strings = strings_of(names_of(items));
            &&& blob.subrange(0, 4) == word(FDT_MAGIC)
            &&& blob.subrange(4, 8) == word(blob.len() as u32)
            &&& blob.subrange(8, 12) == word(56)
            &&& blob.subrange(12, 16) == word((56 + structure.len()) as u32)
            &&& blob.subrange(56, 56 + structure.len() as int) == structure
            &&& blob.subrange(56 + structure.len() as int, blob.len() as int) == strings
        }),
{
    lemma_words();
    lemma_blob_len(items);
    let blob = blob_of(items);
    let structure = structure_of(items) + word(FDT_END);
    let strings = strings_of(names_of(items));
    assert(blob.subrange(0, 4) =~= word(FDT_MAGIC));
    assert(blob.subrange(4, 8) =~= word(blob.len() as u32));
    assert(blob.subrange(8, 12) =~= word(56));
    assert(blob.subrange(12, 16) =~= word((56 + structure.len()) as u32));
    assert(blob.subrange(56, 56 + structure.len() as int) =~= structure);
    assert(blob.subrange(56 + structure.len() as int, blob.len() as int) =~= strings);
}

} // verus!
