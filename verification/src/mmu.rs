//! Sv39 address translation and the guest's view of memory.

use crate::hart::{HartState, TranslationContext};
use crate::isa;
use crate::isa::{
    ensure_aligned, is_sv39_canonical, map_store_fault, AccessType, MachineTrap, Privilege,
    GUEST_PAGE_MASK, GUEST_PAGE_SHIFT, MSTATUS_MPRV, MSTATUS_MXR, MSTATUS_SUM, PTE_ACCESSED,
    PTE_DIRTY, PTE_EXECUTE, PTE_PPN_MASK, PTE_READ, PTE_RESERVED_MASK, PTE_USER, PTE_VALID,
    PTE_WRITE, SATP_MODE_BARE, SATP_MODE_SHIFT, SATP_MODE_SV39, SATP_PPN_MASK,
};
use crate::machine::{Machine, MachineMetrics, MachineView};
use crate::platform::HaltStatus;
use vstd::prelude::*;

verus! {

impl MachineMetrics {
    pub open spec fn count_translation(self, access: AccessType) -> MachineMetrics {
        match access {
            AccessType::Instruction => MachineMetrics {
                instruction_translations: self.instruction_translations.saturating_add(1),
                ..self
            },
            AccessType::Load => MachineMetrics {
                load_translations: self.load_translations.saturating_add(1),
                ..self
            },
            AccessType::Store => MachineMetrics {
                store_translations: self.store_translations.saturating_add(1),
                ..self
            },
        }
    }

    pub open spec fn count_hit(self) -> MachineMetrics {
        MachineMetrics {
            translation_cache_hits: self.translation_cache_hits.saturating_add(1),
            ..self
        }
    }

    pub open spec fn count_walk(self) -> MachineMetrics {
        MachineMetrics {
            translation_cache_misses: self.translation_cache_misses.saturating_add(1),
            sv39_walks: self.sv39_walks.saturating_add(1),
            ..self
        }
    }

    pub open spec fn count_entry_read(self) -> MachineMetrics {
        MachineMetrics {
            page_table_entries_read: self.page_table_entries_read.saturating_add(1),
            ..self
        }
    }

    pub open spec fn count_entry_write(self) -> MachineMetrics {
        MachineMetrics {
            page_table_entries_written: self.page_table_entries_written.saturating_add(1),
            ..self
        }
    }
}

/// Privilege under which a data access is checked.
pub open spec fn effective_privilege(hart: HartState, access: AccessType) -> Privilege {
    if access != AccessType::Instruction && hart.cpu.privilege == Privilege::Machine
        && hart.csrs.mstatus & MSTATUS_MPRV != 0 {
        match Privilege::of_mpp(hart.csrs.mstatus) {
            Some(privilege) => privilege,
            None => Privilege::User,
        }
    } else {
        hart.cpu.privilege
    }
}

/// Index that an address selects in the page table of a level.
pub open spec fn table_index(address: u64, level: nat) -> u64 {
    if level == 0 {
        (address >> 12) & 0x1ff
    } else if level == 1 {
        (address >> 21) & 0x1ff
    } else {
        (address >> 30) & 0x1ff
    }
}

/// A valid entry has no reserved bit and is not writable without being readable.
pub open spec fn entry_malformed(pte: u64) -> bool {
    pte & PTE_RESERVED_MASK != 0 || pte & PTE_VALID == 0 || (pte & PTE_READ == 0 && pte & PTE_WRITE
        != 0)
}

/// Whether a leaf entry grants an access.
pub open spec fn permitted(
    status: u64,
    pte: u64,
    access: AccessType,
    privilege: Privilege,
) -> bool {
    let user_page = pte & PTE_USER != 0;
    if privilege == Privilege::User && !user_page {
        false
    } else if privilege == Privilege::Supervisor && user_page && (access == AccessType::Instruction
        || status & MSTATUS_SUM == 0) {
        false
    } else {
        match access {
            AccessType::Instruction => pte & PTE_EXECUTE != 0,
            AccessType::Load => pte & PTE_READ != 0 || (status & MSTATUS_MXR != 0 && pte
                & PTE_EXECUTE != 0),
            AccessType::Store => pte & PTE_WRITE != 0,
        }
    }
}

/// Accessed and dirty bits that an access needs.
pub open spec fn required_bits(access: AccessType) -> u64 {
    if access == AccessType::Store {
        PTE_ACCESSED | PTE_DIRTY
    } else {
        PTE_ACCESSED
    }
}

/// Page-number bits that a leaf at a level must leave zero.
pub open spec fn superpage_mask(level: nat) -> u64 {
    if level == 0 {
        0
    } else if level == 1 {
        0x1ff
    } else {
        0x3_ffff
    }
}

/// Physical address that a leaf entry at a level maps an address to.
pub open spec fn leaf_address(pte: u64, address: u64, level: nat) -> u64 {
    let ppn = (pte >> 10) & PTE_PPN_MASK;
    let page = if level == 0 {
        ppn
    } else if level == 1 {
        (ppn & !0x1ffu64) | table_index(address, 0)
    } else {
        (((ppn & !0x1ffu64) | table_index(address, 0)) & !0x3_ffffu64) | (table_index(address, 1)
            << 9) | table_index(address, 0)
    };
    (page << GUEST_PAGE_SHIFT) | (address & GUEST_PAGE_MASK)
}

/// A walk that has reached a leaf entry.
#[verifier::opaque]
pub open spec fn leaf_spec(
    m: MachineView,
    address: u64,
    access: AccessType,
    privilege: Privilege,
    context: TranslationContext,
    pte: u64,
    pte_address: u64,
    level: nat,
) -> (MachineView, Result<u64, MachineTrap>) {
    let required = required_bits(access);
    let physical = leaf_address(pte, address, level);
    if ((pte >> 10) & PTE_PPN_MASK) & superpage_mask(level) != 0 || !permitted(
        m.hart().csrs.mstatus,
        pte,
        access,
        privilege,
    ) {
        (m, Err(access.page_fault_spec(address)))
    } else if pte & required != required {
        let counted = m.with_metrics(m.metrics.count_entry_write());
        match counted.devices.store_spec(pte_address, pte | required, 8) {
            None => (counted, Err(access.access_fault_spec(address, 8))),
            Some(devices) => (
                cache_insert(counted.with_devices(devices), address, physical, context),
                Ok(physical),
            ),
        }
    } else {
        (cache_insert(m, address, physical, context), Ok(physical))
    }
}

pub open spec fn cache_insert(
    m: MachineView,
    address: u64,
    physical: u64,
    context: TranslationContext,
) -> MachineView {
    m.with_hart(
        HartState {
            translation_cache: m.hart().translation_cache.insert_spec(address, physical, context),
            ..m.hart()
        },
    )
}

/// A walk with `remaining` table levels to go.
pub open spec fn walk_spec(
    m: MachineView,
    address: u64,
    access: AccessType,
    privilege: Privilege,
    context: TranslationContext,
    table: u64,
    remaining: nat,
) -> (MachineView, Result<u64, MachineTrap>)
    decreases remaining,
{
    if remaining == 0 {
        (m, Err(access.page_fault_spec(address)))
    } else {
        let level = (remaining - 1) as nat;
        let place = table + table_index(address, level) * 8;
        if place > u64::MAX {
            (m, Err(access.access_fault_spec(address, 8)))
        } else {
            let counted = m.with_metrics(m.metrics.count_entry_read());
            match counted.devices.load_spec(place as u64, 8) {
                None => (counted, Err(access.access_fault_spec(address, 8))),
                Some(pte) => if entry_malformed(pte) {
                    (counted, Err(access.page_fault_spec(address)))
                } else if pte & (PTE_READ | PTE_EXECUTE) == 0 {
                    walk_spec(
                        counted,
                        address,
                        access,
                        privilege,
                        context,
                        ((pte >> 10) & PTE_PPN_MASK) << 12,
                        level,
                    )
                } else {
                    leaf_spec(
                        counted,
                        address,
                        access,
                        privilege,
                        context,
                        pte,
                        place as u64,
                        level,
                    )
                },
            }
        }
    }
}

pub open spec fn context_of(
    hart: HartState,
    access: AccessType,
    privilege: Privilege,
) -> TranslationContext {
    TranslationContext {
        satp: hart.csrs.satp,
        permission_context: hart.csrs.mstatus & (MSTATUS_SUM | MSTATUS_MXR),
        privilege,
        access,
    }
}

/// Physical address of a guest access, with its effects on the machine.
#[verifier::opaque]
pub open spec fn translate_spec(m: MachineView, address: u64, access: AccessType) -> (
    MachineView,
    Result<u64, MachineTrap>,
) {
    let counted = m.with_metrics(m.metrics.count_translation(access));
    let hart = m.hart();
    let privilege = effective_privilege(hart, access);
    let mode = hart.csrs.satp >> SATP_MODE_SHIFT;
    let context = context_of(hart, access, privilege);
    if privilege == Privilege::Machine || mode == SATP_MODE_BARE {
        (counted, Ok(address))
    } else if mode != SATP_MODE_SV39 || !isa::sv39_canonical(address) {
        (counted, Err(access.page_fault_spec(address)))
    } else {
        match hart.translation_cache.lookup_spec(address, context) {
            Some(physical) => (counted.with_metrics(counted.metrics.count_hit()), Ok(physical)),
            None => walk_spec(
                counted.with_metrics(counted.metrics.count_walk()),
                address,
                access,
                privilege,
                context,
                (hart.csrs.satp & SATP_PPN_MASK) << 12,
                3,
            ),
        }
    }
}

/// Translation keeps the place within a page and asks for a canonical address,
/// except where there is none; a refusal names the address and the kind of the
/// access.
pub open spec fn keeps_offset(
    m: MachineView,
    address: u64,
    access: AccessType,
    r: Result<u64, MachineTrap>,
) -> bool {
    let bare = effective_privilege(m.hart(), access) == Privilege::Machine || m.hart().csrs.satp
        >> SATP_MODE_SHIFT == SATP_MODE_BARE;
    &&& bare ==> r == Ok::<u64, MachineTrap>(address)
    &&& !bare && r is Ok ==> isa::sv39_canonical(address) && r->Ok_0 & GUEST_PAGE_MASK == address
        & GUEST_PAGE_MASK
    &&& r matches Err(trap) ==> trap == access.page_fault_spec(address) || trap
        == access.access_fault_spec(address, 8)
}

/// Whether a store to `address` touches a reservation.
pub open spec fn overlaps(reservation: Option<(u64, u8)>, address: u64, bytes: u8) -> bool {
    match reservation {
        Some((reserved, reserved_bytes)) => {
            let end = address.saturating_add(bytes as u64);
            let reserved_end = reserved.saturating_add(reserved_bytes as u64);
            address < reserved_end && reserved < end
        },
        None => false,
    }
}

pub open spec fn unreserved(hart: HartState, address: u64, bytes: u8) -> HartState {
    if overlaps(hart.reservation, address, bytes) {
        HartState { reservation: None, ..hart }
    } else {
        hart
    }
}

/// Machine in which no hart reserves any byte of the range.
#[verifier::opaque]
pub open spec fn invalidated(m: MachineView, address: u64, bytes: u8) -> MachineView {
    MachineView {
        harts: Seq::new(m.harts.len(), |i: int| unreserved(m.harts[i], address, bytes)),
        ..m
    }
}

/// A guest load. Floating-point loads of the full-width forms do not reach the
/// CLINT, which `clint` tells.
#[verifier::opaque]
pub open spec fn load_spec(m: MachineView, address: u64, bytes: u8, clint: bool) -> (
    MachineView,
    Result<u64, MachineTrap>,
) {
    match isa::aligned_spec(address, bytes, false) {
        Err(trap) => (m, Err(trap)),
        Ok(_) => {
            let (translated, place) = translate_spec(m, address, AccessType::Load);
            match place {
                Err(trap) => (translated, Err(trap)),
                Ok(physical) => {
                    let (read, value) = if clint {
                        translated.read_device_spec(physical, bytes)
                    } else {
                        let (devices, value) = translated.devices.read_spec(physical, bytes);
                        (translated.with_devices(devices), value)
                    };
                    match value {
                        Ok(value) => (read, Ok(value)),
                        Err(_) => (read, Err(MachineTrap::LoadAccessFault { address, bytes })),
                    }
                },
            }
        },
    }
}

/// A guest store, which first drops every overlapping reservation.
#[verifier::opaque]
pub open spec fn store_spec(
    m: MachineView,
    address: u64,
    value: u64,
    bytes: u8,
    clint: bool,
) -> (MachineView, Result<Option<HaltStatus>, MachineTrap>) {
    match isa::aligned_spec(address, bytes, true) {
        Err(trap) => (m, Err(trap)),
        Ok(_) => {
            let (translated, place) = translate_spec(m, address, AccessType::Store);
            match place {
                Err(trap) => (translated, Err(trap)),
                Ok(physical) => {
                    let open = invalidated(translated, physical, bytes);
                    let (written, halt) = if clint {
                        open.write_device_spec(physical, value, bytes)
                    } else {
                        let (devices, halt) = open.devices.write_spec(physical, value, bytes);
                        (open.with_devices(devices), halt)
                    };
                    match halt {
                        Ok(halt) => (written, Ok(halt)),
                        Err(trap) => (
                            written,
                            Err(isa::store_fault_spec(trap, address, bytes)),
                        ),
                    }
                },
            }
        },
    }
}

fn vpn(address: u64, level: usize) -> (r: u64)
    requires
        level < 3,
    ensures
        r == table_index(address, level as nat),
        r < 512,
{
    let index: u64 = match level {
        0 => (address >> 12) & 0x1ff,
        1 => (address >> 21) & 0x1ff,
        _ => (address >> 30) & 0x1ff,
    };
    proof {
        crate::bits::lemma_masked(address >> 12, 0x1ff, 0, 0, 0, 0);
        crate::bits::lemma_masked(address >> 21, 0x1ff, 0, 0, 0, 0);
        crate::bits::lemma_masked(address >> 30, 0x1ff, 0, 0, 0, 0);
    }
    index
}

impl Machine {
    pub fn page_permissions_allow(&self, pte: u64, access: AccessType, privilege: Privilege) -> (r:
        bool)
        requires
            self.wf(),
        ensures
            r == permitted(self@.hart().csrs.mstatus, pte, access, privilege),
    {
        let status: u64 = self.harts[self.active_hart_id].csrs.mstatus;
        let user_page: bool = pte & PTE_USER != 0;
        if privilege == Privilege::User && !user_page {
            return false;
        }
        if privilege == Privilege::Supervisor && user_page && (access == AccessType::Instruction
            || status & MSTATUS_SUM == 0) {
            return false;
        }
        match access {
            AccessType::Instruction => pte & PTE_EXECUTE != 0,
            AccessType::Load => {
                pte & PTE_READ != 0 || (status & MSTATUS_MXR != 0 && pte & PTE_EXECUTE != 0)
            },
            AccessType::Store => pte & PTE_WRITE != 0,
        }
    }

    fn reach_leaf(
        &mut self,
        address: u64,
        access: AccessType,
        privilege: Privilege,
        context: TranslationContext,
        pte: u64,
        pte_address: u64,
        level: usize,
    ) -> (r: Result<u64, MachineTrap>)
        requires
            old(self).wf(),
            level < 3,
        ensures
            final(self).wf(),
            (final(self)@, r) == leaf_spec(
                old(self)@,
                address,
                access,
                privilege,
                context,
                pte,
                pte_address,
                level as nat,
            ),
    {
        proof {
            reveal(leaf_spec);
        }
        let ppn: u64 = (pte >> 10) & PTE_PPN_MASK;
        let lower: u64 = match level {
            0 => 0,
            1 => 0x1ff,
            _ => 0x3_ffff,
        };
        if ppn & lower != 0 || !self.page_permissions_allow(pte, access, privilege) {
            return Err(access.page_fault(address));
        }
        let required: u64 = if access == AccessType::Store {
            PTE_ACCESSED | PTE_DIRTY
        } else {
            PTE_ACCESSED
        };
        if pte & required != required {
            self.metrics.page_table_entries_written =
            self.metrics.page_table_entries_written.saturating_add(1);
            if !self.devices.write_ram(pte_address, pte | required, 8) {
                return Err(access.access_fault(address, 8));
            }
        }
        let low: u64 = vpn(address, 0);
        let middle: u64 = vpn(address, 1);
        let page: u64 = match level {
            0 => ppn,
            1 => (ppn & !0x1ffu64) | low,
            _ => (((ppn & !0x1ffu64) | low) & !0x3_ffffu64) | (middle << 9) | low,
        };
        let physical: u64 = (page << GUEST_PAGE_SHIFT) | (address & GUEST_PAGE_MASK);
        let active: usize = self.active_hart_id;
        self.harts[active].translation_cache.insert(address, physical, context);
        Ok(physical)
    }

    pub fn translate(&mut self, address: u64, access: AccessType) -> (r: Result<u64, MachineTrap>)
        requires
            old(self).wf(),
        ensures
            final(self).wf(),
            (final(self)@, r) == translate_spec(old(self)@, address, access),
            keeps_offset(old(self)@, address, access, r),
    {
        proof {
            crate::conduct::translation_keeps_the_page_offset(self@, address, access);
            reveal(translate_spec);
        }
        match access {
            AccessType::Instruction => {
                self.metrics.instruction_translations =
                self.metrics.instruction_translations.saturating_add(1);
            },
            AccessType::Load => {
                self.metrics.load_translations = self.metrics.load_translations.saturating_add(1);
            },
            AccessType::Store => {
                self.metrics.store_translations = self.metrics.store_translations.saturating_add(1);
            },
        }
        let active: usize = self.active_hart_id;
        let own = self.harts[active].cpu.privilege;
        let status: u64 = self.harts[active].csrs.mstatus;
        let satp: u64 = self.harts[active].csrs.satp;
        let privilege = if access != AccessType::Instruction && own == Privilege::Machine && status
            & MSTATUS_MPRV != 0 {
            match Privilege::from_mpp(status) {
                Some(privilege) => privilege,
                None => Privilege::User,
            }
        } else {
            own
        };
        let mode: u64 = satp >> SATP_MODE_SHIFT;
        if privilege == Privilege::Machine || mode == SATP_MODE_BARE {
            return Ok(address);
        }
        if mode != SATP_MODE_SV39 || !is_sv39_canonical(address) {
            return Err(access.page_fault(address));
        }
        let context = TranslationContext {
            satp,
            permission_context: status & (MSTATUS_SUM | MSTATUS_MXR),
            privilege,
            access,
        };
        if let Some(physical) = self.harts[active].translation_cache.lookup(address, context) {
            self.metrics.translation_cache_hits =
            self.metrics.translation_cache_hits.saturating_add(1);
            return Ok(physical);
        }
        self.metrics.translation_cache_misses =
        self.metrics.translation_cache_misses.saturating_add(1);
        self.metrics.sv39_walks = self.metrics.sv39_walks.saturating_add(1);
        self.walk(address, access, privilege, context, (satp & SATP_PPN_MASK) << 12)
    }

    fn walk(
        &mut self,
        address: u64,
        access: AccessType,
        privilege: Privilege,
        context: TranslationContext,
        root: u64,
    ) -> (r: Result<u64, MachineTrap>)
        requires
            old(self).wf(),
        ensures
            final(self).wf(),
            (final(self)@, r) == walk_spec(
                old(self)@,
                address,
                access,
                privilege,
                context,
                root,
                3,
            ),
    {
        let mut table: u64 = root;
        let mut remaining: usize = 3;
        while remaining > 0
            invariant
                self.wf(),
                remaining <= 3,
                walk_spec(old(self)@, address, access, privilege, context, root, 3) == walk_spec(
                    self@,
                    address,
                    access,
                    privilege,
                    context,
                    table,
                    remaining as nat,
                ),
            decreases remaining,
        {
            let level: usize = remaining - 1;
            let offset: u64 = vpn(address, level) * 8;
            let pte_address: u64 = match table.checked_add(offset) {
                Some(place) => place,
                None => {
                    return Err(access.access_fault(address, 8));
                },
            };
            self.metrics.page_table_entries_read =
            self.metrics.page_table_entries_read.saturating_add(1);
            let pte: u64 = match self.devices.read_ram(pte_address, 8) {
                Some(pte) => pte,
                None => {
                    return Err(access.access_fault(address, 8));
                },
            };
            if pte & PTE_RESERVED_MASK != 0 || pte & PTE_VALID == 0 || (pte & PTE_READ == 0 && pte
                & PTE_WRITE != 0) {
                return Err(access.page_fault(address));
            }
            if pte & (PTE_READ | PTE_EXECUTE) == 0 {
                table = ((pte >> 10) & PTE_PPN_MASK) << 12;
                remaining = level;
                continue ;
            }
            return self.reach_leaf(address, access, privilege, context, pte, pte_address, level);
        }
        Err(access.page_fault(address))
    }

    pub fn invalidate_reservation(&mut self, address: u64, bytes: u8)
        requires
            old(self).wf(),
        ensures
            final(self).wf(),
            final(self)@ == invalidated(old(self)@, address, bytes),
    {
        proof {
            reveal(invalidated);
        }
        let end: u64 = address.saturating_add(bytes as u64);
        let mut i: usize = 0;
        while i < self.harts.len()
            invariant
                self.wf(),
                end == address.saturating_add(bytes as u64),
                i <= self.harts@.len(),
                self@ == (MachineView { harts: self.harts@, ..old(self)@ }),
                self.harts@.len() == old(self)@.harts.len(),
                forall|k: int|
                    0 <= k < i ==> #[trigger] self.harts@[k] == unreserved(
                        old(self)@.harts[k],
                        address,
                        bytes,
                    ),
                forall|k: int|
                    i <= k < self.harts@.len() ==> #[trigger] self.harts@[k] == old(
                        self,
                    )@.harts[k],
            decreases self.harts@.len() - i,
        {
            if let Some((reserved, reserved_bytes)) = self.harts[i].reservation {
                let reserved_end: u64 = reserved.saturating_add(reserved_bytes as u64);
                if address < reserved_end && reserved < end {
                    self.harts[i].reservation = None;
                }
            }
            i = i + 1;
        }
        assert(self@.harts =~= invalidated(old(self)@, address, bytes).harts);
    }

    pub fn load(&mut self, address: u64, bytes: u8, clint: bool) -> (r: Result<u64, MachineTrap>)
        requires
            old(self).wf(),
            bytes > 0,
        ensures
            final(self).wf(),
            (final(self)@, r) == load_spec(old(self)@, address, bytes, clint),
    {
        proof {
            reveal(load_spec);
        }
        ensure_aligned(address, bytes, false)?;
        let physical: u64 = self.translate(address, AccessType::Load)?;
        let value = if clint {
            self.read_device(physical, bytes)
        } else {
            self.devices.read(physical, bytes)
        };
        match value {
            Ok(value) => Ok(value),
            Err(_) => Err(MachineTrap::LoadAccessFault { address, bytes }),
        }
    }

    pub fn store(&mut self, address: u64, value: u64, bytes: u8, clint: bool) -> (r: Result<
        Option<HaltStatus>,
        MachineTrap,
    >)
        requires
            old(self).wf(),
            bytes > 0,
        ensures
            final(self).wf(),
            (final(self)@, r) == store_spec(old(self)@, address, value, bytes, clint),
    {
        proof {
            reveal(store_spec);
        }
        ensure_aligned(address, bytes, true)?;
        let physical: u64 = self.translate(address, AccessType::Store)?;
        self.invalidate_reservation(physical, bytes);
        let halt = if clint {
            self.write_device(physical, value, bytes)
        } else {
            self.devices.write(physical, value, bytes)
        };
        match halt {
            Ok(halt) => Ok(halt),
            Err(trap) => Err(map_store_fault(trap, address, bytes)),
        }
    }
}

/// In machine mode without `MPRV`, and in bare mode, addresses are physical.
pub proof fn bare_translation_is_identity(m: MachineView, address: u64, access: AccessType)
    requires
        effective_privilege(m.hart(), access) == Privilege::Machine || m.hart().csrs.satp
            >> SATP_MODE_SHIFT == SATP_MODE_BARE,
    ensures
        translate_spec(m, address, access).1 == Ok::<u64, MachineTrap>(address),
        translate_spec(m, address, access).0.devices == m.devices,
        translate_spec(m, address, access).0.harts == m.harts,
{
    reveal(translate_spec);
}

/// A user-mode access never succeeds through a page that is not a user page.
pub proof fn user_access_needs_user_page(status: u64, pte: u64, access: AccessType)
    requires
        pte & PTE_USER == 0,
    ensures
        !permitted(status, pte, access, Privilege::User),
{
}

/// After a store no hart keeps a reservation that the store overlaps.
pub proof fn store_drops_overlapping_reservations(
    m: MachineView,
    address: u64,
    bytes: u8,
    hart: int,
)
    requires
        0 <= hart < m.harts.len(),
    ensures
        !overlaps(invalidated(m, address, bytes).harts[hart].reservation, address, bytes),
{
    reveal(invalidated);
}

} // verus!
