//! Address translation, told from the entries that the page tables hold.

use crate::alu_laws::bit;
use crate::bits;
use crate::bytes;
use crate::devices::DevicesView;
use crate::hart::{HartState, TranslationCache, TranslationContext};
use crate::isa;
use crate::isa::{AccessType, MachineTrap, Privilege};
use crate::machine::MachineView;
use crate::mmu;
use crate::platform::{HaltStatus, DRAM_BASE};
use crate::ram;
use crate::trap_laws;
use vstd::prelude::*;

verus! {

// What a leaf grants.

/// A fetch needs the execute bit, a store the write bit, and a load the read
/// bit, or the execute bit where the status makes executable pages readable.
/// Users reach user pages only; a supervisor reaches them where the status lets
/// it, and never fetches from them.
pub proof fn leaves_grant_what_their_bits_say(
    status: u64,
    pte: u64,
    access: AccessType,
    privilege: Privilege,
)
    ensures
        mmu::permitted(status, pte, access, privilege) <==> {
            &&& access == AccessType::Instruction ==> bit(pte, 3)
            &&& access == AccessType::Load ==> bit(pte, 1) || bit(status, 19) && bit(pte, 3)
            &&& access == AccessType::Store ==> bit(pte, 2)
            &&& privilege == Privilege::User ==> bit(pte, 4)
            &&& privilege == Privilege::Supervisor && bit(pte, 4) ==> access
                != AccessType::Instruction && bit(status, 18)
        },
{
    bits::lemma_leaf(pte, status, 0);
}

/// A page without the write bit is stored to by nobody.
pub proof fn stores_need_the_write_bit(status: u64, pte: u64, privilege: Privilege)
    requires
        !bit(pte, 2),
    ensures
        !mmu::permitted(status, pte, AccessType::Store, privilege),
{
    leaves_grant_what_their_bits_say(status, pte, AccessType::Store, privilege);
}

// Walks.

/// Bytes that a leaf of a level maps.
pub open spec fn page_size(level: int) -> int {
    if level == 0 {
        0x1000
    } else if level == 1 {
        0x20_0000
    } else {
        0x4000_0000
    }
}

/// Physical address of what an entry points to.
pub open spec fn target_of(pte: u64) -> int {
    ((pte as int / 0x400) % 0x1000_0000_0000) * 0x1000
}

/// Where the entry of an address stands in a table: tables hold 512 entries of
/// eight bytes.
pub open spec fn place_of(table: int, address: u64, level: int) -> int {
    table + 8 * ((address as int / page_size(level)) % 512)
}

/// An entry that says something: it is valid, has no reserved bit, and is not
/// writable without being readable.
pub open spec fn sound_entry(pte: u64) -> bool {
    bit(pte, 0) && pte < 0x40_0000_0000_0000 && (bit(pte, 2) ==> bit(pte, 1))
}

/// An entry that can be read or executed through, rather than the next table.
pub open spec fn is_leaf(pte: u64) -> bool {
    bit(pte, 1) || bit(pte, 3)
}

/// The entry at a physical address, read from RAM.
pub open spec fn entry_at(devices: DevicesView, place: int) -> Option<u64> {
    if DRAM_BASE <= place && place - DRAM_BASE + 8 <= devices.ram.len() && place <= u64::MAX {
        Some(
            bytes::le_value(
                devices.ram.subrange(place - DRAM_BASE, place - DRAM_BASE + 8),
            ) as u64,
        )
    } else {
        None
    }
}

/// The entries of an address from a table of a level down to a leaf.
pub open spec fn leads(
    devices: DevicesView,
    address: u64,
    table: int,
    level: int,
    path: Seq<u64>,
) -> bool
    decreases path.len(),
{
    &&& path.len() > 0
    &&& entry_at(devices, place_of(table, address, level)) == Some(path[0])
    &&& sound_entry(path[0])
    &&& if path.len() == 1 {
        is_leaf(path[0])
    } else {
        !is_leaf(path[0]) && level > 0 && leads(
            devices,
            address,
            target_of(path[0]),
            level - 1,
            path.skip(1),
        )
    }
}

/// Where the last of the entries stands.
pub open spec fn last_place(table: int, address: u64, level: int, path: Seq<u64>) -> int
    decreases path.len(),
{
    if path.len() <= 1 {
        place_of(table, address, level)
    } else {
        last_place(target_of(path[0]), address, level - 1, path.skip(1))
    }
}

/// A leaf of a level grants an access: its bits do, and a large page starts at
/// a multiple of its size.
pub open spec fn granted(
    m: MachineView,
    pte: u64,
    level: int,
    access: AccessType,
    privilege: Privilege,
) -> bool {
    &&& target_of(pte) % page_size(level) == 0
    &&& mmu::permitted(m.hart().csrs.mstatus, pte, access, privilege)
}

/// The entry that a translation leaves: it was accessed, and a store made it
/// dirty; the rest of it stands.
pub open spec fn touched(before: u64, after: u64, access: AccessType) -> bool {
    forall|i: u64|
        i < 64 ==> #[trigger] bit(after, i) == (bit(before, i) || i == 6 || i == 7 && access
            == AccessType::Store)
}

/// RAM differs in at most the entry at a place.
pub open spec fn only_entry(before: Seq<u8>, after: Seq<u8>, place: int, pte: u64) -> bool {
    after == ram::splice(before, place - DRAM_BASE, bytes::le_bytes(pte as nat, 8))
}

/// What a translation through a leaf comes to: where the leaf grants the
/// access, the address of the page plus the place within it, and the leaf marked
/// accessed, and dirty by a store; a page fault and memory as it was where not.
pub open spec fn concluded(
    m: MachineView,
    address: u64,
    access: AccessType,
    privilege: Privilege,
    pte: u64,
    level: int,
    place: int,
    outcome: (MachineView, Result<u64, MachineTrap>),
) -> bool {
    if granted(m, pte, level, access, privilege) {
        &&& outcome.1 matches Ok(physical) && physical == target_of(pte) + address as int
            % page_size(level)
        &&& exists|new: u64|
            touched(pte, new, access) && #[trigger] only_entry(
                m.devices.ram,
                outcome.0.devices.ram,
                place,
                new,
            )
    } else {
        outcome.1 == Err::<u64, MachineTrap>(access.page_fault_spec(address))
            && outcome.0.devices == m.devices
    }
}

proof fn lemma_place(table: u64, address: u64, level: nat)
    requires
        level < 3,
    ensures
        table + mmu::table_index(address, level) * 8 == place_of(
            table as int,
            address,
            level as int,
        ),
        mmu::table_index(address, level) < 512,
{
    bits::lemma_masks(address);
    bits::lemma_masks(address >> 12);
    bits::lemma_masks(address >> 21);
    bits::lemma_masks(address >> 30);
}

proof fn lemma_loaded(devices: DevicesView, place: int)
    requires
        0 <= place,
    ensures
        place <= u64::MAX ==> devices.load_spec(place as u64, 8) == entry_at(devices, place),
        place > u64::MAX ==> entry_at(devices, place) is None,
{
}

proof fn lemma_entry(pte: u64)
    ensures
        mmu::entry_malformed(pte) <==> !sound_entry(pte),
        pte & (isa::PTE_READ | isa::PTE_EXECUTE) == 0 <==> !is_leaf(pte),
        ((pte >> 10) & isa::PTE_PPN_MASK) << 12u32 == target_of(pte),
{
    bits::lemma_leaf(pte, 0, 0);
}

proof fn lemma_multiples(ppn: int)
    requires
        0 <= ppn,
    ensures
        (ppn * 0x1000) % 0x1000 == 0,
        (ppn * 0x1000) % 0x20_0000 == 0 <==> ppn % 512 == 0,
        (ppn * 0x1000) % 0x4000_0000 == 0 <==> ppn % 0x4_0000 == 0,
{
}

proof fn lemma_physical(pte: u64, address: u64, level: nat)
    requires
        level < 3,
    ensures
        ((pte >> 10) & isa::PTE_PPN_MASK) & mmu::superpage_mask(level) == 0 <==> target_of(pte)
            % page_size(level as int) == 0,
        target_of(pte) % page_size(level as int) == 0 ==> mmu::leaf_address(pte, address, level)
            == target_of(pte) + address as int % page_size(level as int),
{
    let ppn = (pte >> 10) & isa::PTE_PPN_MASK;
    assert(ppn & 0x1ff == ppn % 512 && ppn & 0x3_ffff == ppn % 0x4_0000) by {
        bits::lemma_masks(ppn);
    }
    assert(ppn & 0 == 0) by {
        bits::lemma_masked(ppn, 0, 0, 0, 0, 0);
    }
    assert(target_of(pte) == ppn * 0x1000) by {
        bits::lemma_leaf(pte, address, 0);
    }
    lemma_multiples(ppn as int);
    if target_of(pte) % page_size(level as int) == 0 {
        assert(mmu::leaf_address(pte, address, level) == target_of(pte) + address as int
            % page_size(level as int)) by {
            bits::lemma_leaf(pte, address, 0);
        }
    }
}

proof fn lemma_touched(pte: u64, access: AccessType)
    ensures
        touched(pte, pte | mmu::required_bits(access), access),
        pte & mmu::required_bits(access) == mmu::required_bits(access) ==> touched(
            pte,
            pte,
            access,
        ),
{
    let required = mmu::required_bits(access);
    bits::lemma_leaf(pte, 0, 0);
    assert(required == (if access == AccessType::Store {
        0xc0u64
    } else {
        0x40u64
    }));
    let new = pte | required;
    assert forall|i: u64| i < 64 implies #[trigger] bit(new, i) == (bit(pte, i) || i == 6 || i == 7
        && access == AccessType::Store) by {
        bits::lemma_leaf(pte, 0, i);
    }
}

/// Writing an entry over itself changes nothing.
proof fn lemma_rewritten(devices: DevicesView, place: int, pte: u64)
    requires
        entry_at(devices, place) == Some(pte),
    ensures
        only_entry(devices.ram, devices.ram, place, pte),
{
    let at = place - DRAM_BASE;
    let digits = devices.ram.subrange(at, at + 8);
    bytes::lemma_limits();
    bytes::lemma_le_value_bound(digits);
    bytes::le_bytes_of_value(digits);
    assert(bytes::le_bytes(pte as nat, 8) == digits);
    assert(ram::splice(devices.ram, at, digits) =~= devices.ram);
}

/// What the walk does at a leaf.
proof fn lemma_leaf(
    m: MachineView,
    address: u64,
    access: AccessType,
    privilege: Privilege,
    context: TranslationContext,
    pte: u64,
    place: u64,
    level: nat,
)
    requires
        level < 3,
        entry_at(m.devices, place as int) == Some(pte),
        place % 8 == 0,
        m.devices.ram.len() <= usize::MAX,
    ensures
        concluded(
            m,
            address,
            access,
            privilege,
            pte,
            level as int,
            place as int,
            mmu::leaf_spec(m, address, access, privilege, context, pte, place, level),
        ),
{
    reveal(mmu::leaf_spec);
    let required = mmu::required_bits(access);
    lemma_physical(pte, address, level);
    lemma_touched(pte, access);
    let new = pte | required;
    if granted(m, pte, level as int, access, privilege) {
        let after = mmu::leaf_spec(
            m,
            address,
            access,
            privilege,
            context,
            pte,
            place,
            level,
        ).0;
        if pte & required == required {
            lemma_rewritten(m.devices, place as int, pte);
            assert(after.devices == m.devices);
            assert(only_entry(m.devices.ram, after.devices.ram, place as int, pte));
        } else {
            let at = place - DRAM_BASE;
            assert(at % 8 == 0);
            assert(m.devices.store_spec(place, new, 8) is Some);
            assert(only_entry(m.devices.ram, after.devices.ram, place as int, new));
        }
    }
}

/// Where the tables lead to a leaf, the walk ends as the leaf says.
#[verifier::rlimit(50)]
proof fn lemma_walk(
    m: MachineView,
    address: u64,
    access: AccessType,
    privilege: Privilege,
    context: TranslationContext,
    table: u64,
    remaining: nat,
    path: Seq<u64>,
)
    requires
        1 <= remaining <= 3,
        table % 4096 == 0,
        m.devices.ram.len() <= usize::MAX,
        leads(m.devices, address, table as int, remaining - 1, path),
    ensures
        path.len() <= remaining,
        concluded(
            m,
            address,
            access,
            privilege,
            path.last(),
            remaining - path.len(),
            last_place(table as int, address, remaining - 1, path),
            mmu::walk_spec(m, address, access, privilege, context, table, remaining),
        ),
    decreases remaining,
{
    let level = (remaining - 1) as nat;
    lemma_place(table, address, level);
    let place = place_of(table as int, address, level as int);
    lemma_loaded(m.devices, place);
    lemma_entry(path[0]);
    let counted = m.with_metrics(m.metrics.count_entry_read());
    assert(counted.hart() == m.hart());
    if path.len() == 1 {
        assert(place % 8 == 0);
        lemma_leaf(counted, address, access, privilege, context, path[0], place as u64, level);
        assert(path.last() == path[0]);
        assert(remaining - path.len() == level);
        assert(last_place(table as int, address, remaining - 1, path) == place);
        assert(mmu::walk_spec(m, address, access, privilege, context, table, remaining)
            == mmu::leaf_spec(
            counted,
            address,
            access,
            privilege,
            context,
            path[0],
            place as u64,
            level,
        ));
    } else {
        let next = target_of(path[0]) as u64;
        lemma_walk(counted, address, access, privilege, context, next, level, path.skip(1));
        assert(path.skip(1).last() == path.last());
        assert(mmu::walk_spec(m, address, access, privilege, context, table, remaining)
            == mmu::walk_spec(counted, address, access, privilege, context, next, level));
        assert(last_place(table as int, address, remaining - 1, path) == last_place(
            next as int,
            address,
            remaining - 2,
            path.skip(1),
        ));
    }
}

/// A walk that ends well went down a path.
proof fn lemma_walked(
    m: MachineView,
    address: u64,
    access: AccessType,
    privilege: Privilege,
    context: TranslationContext,
    table: u64,
    remaining: nat,
) -> (path: Seq<u64>)
    requires
        remaining <= 3,
        mmu::walk_spec(m, address, access, privilege, context, table, remaining).1 is Ok,
    ensures
        leads(m.devices, address, table as int, remaining - 1, path),
        path.len() <= remaining,
    decreases remaining,
{
    let level = (remaining - 1) as nat;
    lemma_place(table, address, level);
    let place = place_of(table as int, address, level as int);
    lemma_loaded(m.devices, place);
    let counted = m.with_metrics(m.metrics.count_entry_read());
    let pte = counted.devices.load_spec(place as u64, 8)->Some_0;
    lemma_entry(pte);
    if is_leaf(pte) {
        let path = seq![pte];
        assert(path[0] == pte);
        path
    } else {
        let next = target_of(pte) as u64;
        if level == 0 {
            assert(false);
        }
        let rest = lemma_walked(counted, address, access, privilege, context, next, level);
        let path = seq![pte] + rest;
        assert(path[0] == pte);
        assert(path.skip(1) =~= rest);
        path
    }
}

/// A hart whose accesses go through the page tables.
pub open spec fn paged(m: MachineView, access: AccessType) -> bool {
    &&& 0 <= m.active < m.harts.len()
    &&& mmu::effective_privilege(m.hart(), access) != Privilege::Machine
    &&& m.hart().csrs.satp as int / 0x1000_0000_0000_0000 == 8
    &&& m.devices.ram.len() <= usize::MAX
}

/// The table that the address-space register names.
pub open spec fn root_of(m: MachineView) -> int {
    (m.hart().csrs.satp as int % 0x1000_0000_0000) * 0x1000
}

/// An address whose upper 25 bits repeat bit 38.
pub open spec fn canonical(address: u64) -> bool {
    address < 0x40_0000_0000 || address >= 0xffff_ffc0_0000_0000
}

/// No cached translation answers.
pub open spec fn missed(m: MachineView, address: u64, access: AccessType) -> bool {
    m.hart().translation_cache.lookup_spec(
        address,
        mmu::context_of(m.hart(), access, mmu::effective_privilege(m.hart(), access)),
    ) is None
}

proof fn lemma_root(m: MachineView, address: u64)
    ensures
        m.hart().csrs.satp >> isa::SATP_MODE_SHIFT == m.hart().csrs.satp as int
            / 0x1000_0000_0000_0000,
        (m.hart().csrs.satp & isa::SATP_PPN_MASK) << 12u32 == root_of(m),
        isa::sv39_canonical(address) <==> canonical(address),
{
    let satp = m.hart().csrs.satp;
    assert(satp >> isa::SATP_MODE_SHIFT == satp as int / 0x1000_0000_0000_0000) by {
        bits::lemma_masks(satp);
    }
    assert((satp & isa::SATP_PPN_MASK) << 12u32 == root_of(m)) by {
        bits::lemma_leaf(satp, 0, 0);
    }
    assert(address >> 38 == address as int / 0x40_0000_0000 && address >> 39 == address as int
        / 0x80_0000_0000) by {
        bits::lemma_masks(address);
    }
    assert((address >> 38) & 1 == (address >> 38) % 2) by {
        bits::lemma_masks(address >> 38);
    }
}

/// Where the tables lead from their root to a leaf, the translation comes to
/// what the leaf says.
pub proof fn translation_follows_the_tables(
    m: MachineView,
    address: u64,
    access: AccessType,
    path: Seq<u64>,
)
    requires
        paged(m, access),
        canonical(address),
        missed(m, address, access),
        leads(m.devices, address, root_of(m), 2, path),
    ensures
        path.len() <= 3,
        concluded(
            m,
            address,
            access,
            mmu::effective_privilege(m.hart(), access),
            path.last(),
            3 - path.len(),
            last_place(root_of(m), address, 2, path),
            mmu::translate_spec(m, address, access),
        ),
{
    reveal(mmu::translate_spec);
    lemma_root(m, address);
    let counted = m.with_metrics(m.metrics.count_translation(access));
    let walking = counted.with_metrics(counted.metrics.count_walk());
    let privilege = mmu::effective_privilege(m.hart(), access);
    assert(walking.hart() == m.hart());
    lemma_walk(
        walking,
        address,
        access,
        privilege,
        mmu::context_of(m.hart(), access, privilege),
        root_of(m) as u64,
        3,
        path,
    );
}

/// A translation that succeeds without the cache came from the tables: a path
/// leads from the root to a leaf that grants the access.
pub proof fn translations_come_from_the_tables(m: MachineView, address: u64, access: AccessType)
    requires
        paged(m, access),
        missed(m, address, access),
        mmu::translate_spec(m, address, access).1 is Ok,
    ensures
        canonical(address),
        exists|path: Seq<u64>|
            path.len() <= 3 && #[trigger] leads(m.devices, address, root_of(m), 2, path) && granted(
                m,
                path.last(),
                3 - path.len(),
                access,
                mmu::effective_privilege(m.hart(), access),
            ),
{
    let before = mmu::translate_spec(m, address, access);
    lemma_root(m, address);
    let counted = m.with_metrics(m.metrics.count_translation(access));
    let walking = counted.with_metrics(counted.metrics.count_walk());
    let privilege = mmu::effective_privilege(m.hart(), access);
    assert(walking.hart() == m.hart());
    assert(canonical(address) && mmu::walk_spec(
        walking,
        address,
        access,
        privilege,
        mmu::context_of(m.hart(), access, privilege),
        root_of(m) as u64,
        3,
    ).1 is Ok) by {
        reveal(mmu::translate_spec);
    }
    let path = lemma_walked(
        walking,
        address,
        access,
        privilege,
        mmu::context_of(m.hart(), access, privilege),
        root_of(m) as u64,
        3,
    );
    assert(leads(m.devices, address, root_of(m), 2, path));
    translation_follows_the_tables(m, address, access, path);
}

/// A store that reached memory through the tables reached a writable leaf.
pub proof fn stores_reach_writable_pages(m: MachineView, address: u64)
    requires
        paged(m, AccessType::Store),
        missed(m, address, AccessType::Store),
        mmu::translate_spec(m, address, AccessType::Store).1 is Ok,
    ensures
        exists|path: Seq<u64>|
            #[trigger] leads(m.devices, address, root_of(m), 2, path) && bit(path.last(), 2),
{
    translations_come_from_the_tables(m, address, AccessType::Store);
    let path = choose|path: Seq<u64>|
        path.len() <= 3 && #[trigger] leads(m.devices, address, root_of(m), 2, path) && granted(
            m,
            path.last(),
            3 - path.len(),
            AccessType::Store,
            mmu::effective_privilege(m.hart(), AccessType::Store),
        );
    leaves_grant_what_their_bits_say(
        m.hart().csrs.mstatus,
        path.last(),
        AccessType::Store,
        mmu::effective_privilege(m.hart(), AccessType::Store),
    );
}

// Privileges and the cache.

/// A fetch is checked at the hart's own level, and so is every access unless a
/// machine-level hart lends the level kept in its status.
pub proof fn accesses_are_checked_at_their_level(hart: HartState, access: AccessType)
    ensures
        ({
            let lends = hart.cpu.privilege == Privilege::Machine && bit(hart.csrs.mstatus, 17);
            let level = mmu::effective_privilege(hart, access);
            if access == AccessType::Instruction || !lends {
                level == hart.cpu.privilege
            } else {
                trap_laws::kept_level(hart.csrs.mstatus) != 2 ==> level.code()
                    == trap_laws::kept_level(hart.csrs.mstatus)
            }
        }),
{
    bits::lemma_bit_updates(hart.csrs.mstatus, 17, 17, 0);
    trap_laws::lemma_kept_level(hart.csrs.mstatus);
}

/// A cached translation answers for its own page and its own context: the
/// address space, the two status bits, the level and the kind of the access.
/// For anything else it is as if it were not there, or it took the place of
/// what answered.
pub proof fn cached_translations_answer_for_their_own(
    cache: TranslationCache,
    address: u64,
    physical: u64,
    context: TranslationContext,
    other: u64,
    asked: TranslationContext,
)
    requires
        address as int % 4096 == physical as int % 4096,
    ensures
        ({
            let found = cache.insert_spec(address, physical, context).lookup_spec(other, asked);
            if other as int / 4096 == address as int / 4096 && asked == context {
                found matches Some(there) && there - other == physical - address
            } else {
                found == cache.lookup_spec(other, asked) || found is None
            }
        }),
{
    TranslationCache::lemma_slot(address >> isa::GUEST_PAGE_SHIFT, context);
    TranslationCache::lemma_slot(other >> isa::GUEST_PAGE_SHIFT, asked);
    bits::lemma_masks(address);
    bits::lemma_masks(other);
    bits::lemma_masks(physical);
    bits::lemma_leaf(physical, other, 0);
}

// Memory.

/// A range of RAM.
pub open spec fn in_ram(devices: DevicesView, physical: u64, bytes: int) -> bool {
    DRAM_BASE <= physical && physical - DRAM_BASE + bytes <= devices.ram.len()
}

/// An aligned load of RAM reads the bytes at the translated address, the lowest
/// first, and changes no memory; a misaligned one is refused.
pub proof fn loads_read_memory(m: MachineView, address: u64, bytes: u8, clint: bool)
    requires
        bytes == 1 || bytes == 2 || bytes == 4 || bytes == 8,
        m.devices.ram.len() <= usize::MAX,
    ensures
        ({
            let (t, place) = mmu::translate_spec(m, address, AccessType::Load);
            let (after, r) = mmu::load_spec(m, address, bytes, clint);
            &&& address as int % bytes as int != 0 ==> after == m && r == Err::<u64, MachineTrap>(
                MachineTrap::LoadAddressMisaligned { address, bytes },
            )
            &&& address as int % bytes as int == 0 ==> match place {
                Err(trap) => after == t && r == Err::<u64, MachineTrap>(trap),
                Ok(physical) => in_ram(t.devices, physical, bytes as int) ==> {
                    let at = physical - DRAM_BASE;
                    &&& after.devices.ram == t.devices.ram
                    &&& r matches Ok(value) && value == bytes::le_value(
                        t.devices.ram.subrange(at, at + bytes),
                    )
                },
            }
        }),
{
    reveal(mmu::load_spec);
    let (t, place) = mmu::translate_spec(m, address, AccessType::Load);
    if let Ok(physical) = place {
        if in_ram(t.devices, physical, bytes as int) {
            let digits = t.devices.ram.subrange(
                physical - DRAM_BASE,
                physical - DRAM_BASE + bytes,
            );
            bytes::lemma_limits();
            bytes::lemma_le_value_bound(digits);
            bytes::lemma_limit_monotone(bytes as nat, 8);
        }
    }
}

/// An aligned store to RAM writes the low bytes of its value at the translated
/// address, the lowest first, and no other byte; a misaligned one is refused.
pub proof fn stores_write_memory(m: MachineView, address: u64, value: u64, bytes: u8, clint: bool)
    requires
        bytes == 1 || bytes == 2 || bytes == 4 || bytes == 8,
    ensures
        ({
            let (t, place) = mmu::translate_spec(m, address, AccessType::Store);
            let (after, r) = mmu::store_spec(m, address, value, bytes, clint);
            &&& address as int % bytes as int != 0 ==> after == m && r == Err::<
                Option<HaltStatus>,
                MachineTrap,
            >(MachineTrap::StoreAddressMisaligned { address, bytes })
            &&& address as int % bytes as int == 0 ==> match place {
                Err(trap) => after == t && r == Err::<Option<HaltStatus>, MachineTrap>(trap),
                Ok(physical) => in_ram(t.devices, physical, bytes as int) && physical as int
                    % bytes as int == 0 ==> {
                    let at = physical - DRAM_BASE;
                    &&& r == Ok::<Option<HaltStatus>, MachineTrap>(None)
                    &&& after.devices.ram.len() == t.devices.ram.len()
                    &&& bytes::le_value(after.devices.ram.subrange(at, at + bytes)) == value as int
                        % bytes::limit(bytes as nat) as int
                    &&& forall|i: int|
                        0 <= i < t.devices.ram.len() && !(at <= i < at + bytes)
                            ==> #[trigger] after.devices.ram[i] == t.devices.ram[i]
                },
            }
        }),
{
    reveal(mmu::store_spec);
    reveal(mmu::invalidated);
    let (t, place) = mmu::translate_spec(m, address, AccessType::Store);
    if address as int % bytes as int == 0 {
        if let Ok(physical) = place {
            if in_ram(t.devices, physical, bytes as int) && physical as int % bytes as int == 0 {
                let at = physical - DRAM_BASE;
                let digits = bytes::le_bytes(value as nat, bytes as nat);
                bytes::le_value_of_low_bytes(value as nat, bytes as nat);
                assert(at % bytes as int == 0);
                let after = mmu::store_spec(m, address, value, bytes, clint).0;
                assert(after.devices.ram == ram::splice(t.devices.ram, at, digits));
                assert(after.devices.ram.subrange(at, at + bytes) =~= digits);
            }
        }
    }
}

/// Where addresses are physical, what was stored is loaded again: its low bytes.
pub proof fn stored_values_are_loaded(
    m: MachineView,
    address: u64,
    value: u64,
    bytes: u8,
    clint: bool,
)
    requires
        bytes == 1 || bytes == 2 || bytes == 4 || bytes == 8,
        address as int % bytes as int == 0,
        0 <= m.active < m.harts.len(),
        m.devices.ram.len() <= usize::MAX,
        in_ram(m.devices, address, bytes as int),
        m.hart().cpu.privilege == Privilege::Machine,
        !bit(m.hart().csrs.mstatus, 17),
    ensures
        ({
            let written = mmu::store_spec(m, address, value, bytes, clint).0;
            mmu::load_spec(written, address, bytes, clint).1 matches Ok(read) && read == value as int
                % bytes::limit(bytes as nat) as int
        }),
{
    accesses_are_checked_at_their_level(m.hart(), AccessType::Store);
    mmu::bare_translation_is_identity(m, address, AccessType::Store);
    stores_write_memory(m, address, value, bytes, clint);
    let written = mmu::store_spec(m, address, value, bytes, clint).0;
    assert(written.hart().cpu == m.hart().cpu && written.hart().csrs == m.hart().csrs) by {
        reveal(mmu::store_spec);
        reveal(mmu::invalidated);
        reveal(mmu::translate_spec);
    }
    accesses_are_checked_at_their_level(written.hart(), AccessType::Load);
    mmu::bare_translation_is_identity(written, address, AccessType::Load);
    loads_read_memory(written, address, bytes, clint);
}

} // verus!
