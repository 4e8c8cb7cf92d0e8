//! Per-hart state: control mailbox, translation cache, traps and returns.

use crate::cpu;
use crate::cpu::{Cpu, CsrFile};
use crate::isa;
use crate::isa::{
    ensure_instruction_aligned, illegal, interrupt_vector, AccessType, Csr, MachineTrap, Privilege,
    GUEST_PAGE_MASK, GUEST_PAGE_SHIFT, INTERRUPT_CAUSE_BIT, INTERRUPT_MACHINE_EXTERNAL,
    INTERRUPT_MACHINE_SOFTWARE, INTERRUPT_MACHINE_TIMER, INTERRUPT_SUPERVISOR_EXTERNAL,
    INTERRUPT_SUPERVISOR_SOFTWARE, INTERRUPT_SUPERVISOR_TIMER, MEDELEG_SUPPORTED,
    MIDELEG_SUPPORTED, MIP_MSIP, MIP_MTIP, MIP_STIP, MSTATUS_MIE, MSTATUS_MPIE, MSTATUS_MPP,
    MSTATUS_MPP_SHIFT, MSTATUS_MPRV, MSTATUS_SIE, MSTATUS_SPIE, MSTATUS_SPP,
};
use vstd::prelude::*;

verus! {

/// Whether a hart takes part in scheduling.
#[derive(Clone, Copy, Debug, PartialEq, Eq, Structural)]
pub enum HartLifecycle {
    Started,
    Stopped,
}

/// Progress of a start request through the control mailbox.
#[derive(Clone, Copy, Debug, PartialEq, Eq, Structural)]
pub enum ControlPhase {
    Stopped,
    StartPending,
    Started,
}

/// Mailbox through which one hart controls another.
#[derive(Clone, Copy, Debug, PartialEq, Eq, Structural)]
pub struct HartControl {
    pub phase: ControlPhase,
    pub start_address: u64,
    pub start_opaque: u64,
    pub start_generation: u64,
    pub start_acknowledged: u64,
    pub pending_interrupts: u64,
    pub fence_generation: u64,
    pub fence_acknowledged: u64,
}

impl HartControl {
    pub open spec fn fresh(lifecycle: HartLifecycle) -> HartControl {
        HartControl {
            phase: match lifecycle {
                HartLifecycle::Started => ControlPhase::Started,
                HartLifecycle::Stopped => ControlPhase::Stopped,
            },
            start_address: 0,
            start_opaque: 0,
            start_generation: 0,
            start_acknowledged: 0,
            pending_interrupts: 0,
            fence_generation: 0,
            fence_acknowledged: 0,
        }
    }

    pub open spec fn lifecycle_spec(self) -> HartLifecycle {
        match self.phase {
            ControlPhase::Started => HartLifecycle::Started,
            _ => HartLifecycle::Stopped,
        }
    }

    pub open spec fn start_requested(self, address: u64, opaque: u64) -> HartControl {
        HartControl {
            phase: ControlPhase::StartPending,
            start_address: address,
            start_opaque: opaque,
            start_generation: self.start_generation.wrapping_add(1),
            ..self
        }
    }

    pub open spec fn quiescent(self) -> bool {
        &&& self.phase != ControlPhase::StartPending
        &&& self.pending_interrupts == 0
        &&& self.fence_generation == self.fence_acknowledged
    }

    pub fn new(lifecycle: HartLifecycle) -> (r: Self)
        ensures
            r == HartControl::fresh(lifecycle),
    {
        HartControl {
            phase: match lifecycle {
                HartLifecycle::Started => ControlPhase::Started,
                HartLifecycle::Stopped => ControlPhase::Stopped,
            },
            start_address: 0,
            start_opaque: 0,
            start_generation: 0,
            start_acknowledged: 0,
            pending_interrupts: 0,
            fence_generation: 0,
            fence_acknowledged: 0,
        }
    }

    pub fn lifecycle(&self) -> (r: HartLifecycle)
        ensures
            r == self.lifecycle_spec(),
    {
        match self.phase {
            ControlPhase::Started => HartLifecycle::Started,
            _ => HartLifecycle::Stopped,
        }
    }

    /// Claims a stopped hart and publishes one start payload.
    pub fn request_start(&mut self, address: u64, opaque: u64) -> (r: Result<u64, ()>)
        ensures
            r is Ok <==> old(self).phase == ControlPhase::Stopped,
            r matches Ok(generation) ==> *final(self) == old(self).start_requested(
                address,
                opaque,
            ) && generation == final(self).start_generation,
            r is Err ==> *final(self) == *old(self),
    {
        if self.phase != ControlPhase::Stopped {
            return Err(());
        }
        self.start_address = address;
        self.start_opaque = opaque;
        self.start_generation = self.start_generation.wrapping_add(1);
        self.phase = ControlPhase::StartPending;
        Ok(self.start_generation)
    }

    pub fn pending_start(&self) -> (r: Option<(u64, u64, u64)>)
        ensures
            r == (if self.phase == ControlPhase::StartPending {
                Some((self.start_address, self.start_opaque, self.start_generation))
            } else {
                None
            }),
    {
        if self.phase == ControlPhase::StartPending {
            Some((self.start_address, self.start_opaque, self.start_generation))
        } else {
            None
        }
    }

    pub fn acknowledge_start(&mut self, generation: u64)
        ensures
            *final(self) == (HartControl {
                start_acknowledged: generation,
                phase: ControlPhase::Started,
                ..*old(self)
            }),
    {
        self.start_acknowledged = generation;
        self.phase = ControlPhase::Started;
    }

    pub fn stop(&mut self)
        ensures
            *final(self) == (HartControl { phase: ControlPhase::Stopped, ..*old(self) }),
    {
        self.phase = ControlPhase::Stopped;
    }

    pub fn raise_interrupt(&mut self, interrupt: u64)
        ensures
            *final(self) == (HartControl {
                pending_interrupts: old(self).pending_interrupts | interrupt,
                ..*old(self)
            }),
    {
        self.pending_interrupts = self.pending_interrupts | interrupt;
    }

    pub fn take_interrupts(&mut self) -> (r: u64)
        ensures
            r == old(self).pending_interrupts,
            *final(self) == (HartControl { pending_interrupts: 0, ..*old(self) }),
    {
        let taken: u64 = self.pending_interrupts;
        self.pending_interrupts = 0;
        taken
    }

    pub fn request_fence(&mut self) -> (r: u64)
        ensures
            r == final(self).fence_generation,
            *final(self) == (HartControl {
                fence_generation: old(self).fence_generation.wrapping_add(1),
                ..*old(self)
            }),
    {
        self.fence_generation = self.fence_generation.wrapping_add(1);
        self.fence_generation
    }

    pub fn pending_fence(&self) -> (r: Option<u64>)
        ensures
            r == (if self.fence_generation != self.fence_acknowledged {
                Some(self.fence_generation)
            } else {
                None
            }),
    {
        if self.fence_generation != self.fence_acknowledged {
            Some(self.fence_generation)
        } else {
            None
        }
    }

    pub fn acknowledge_fence(&mut self, generation: u64)
        ensures
            *final(self) == (HartControl { fence_acknowledged: generation, ..*old(self) }),
    {
        self.fence_acknowledged = generation;
    }

    pub fn is_quiescent(&self) -> (r: bool)
        ensures
            r == self.quiescent(),
    {
        self.phase != ControlPhase::StartPending && self.pending_interrupts == 0
            && self.fence_generation == self.fence_acknowledged
    }
}

/// Everything besides the page number that a cached translation depends on.
#[derive(Clone, Copy, Debug, PartialEq, Eq, Structural)]
pub struct TranslationContext {
    pub satp: u64,
    pub permission_context: u64,
    pub privilege: Privilege,
    pub access: AccessType,
}

#[derive(Clone, Copy, Debug, PartialEq, Eq, Structural)]
pub struct TranslationCacheEntry {
    pub virtual_page: u64,
    pub physical_page: u64,
    pub context: TranslationContext,
}

/// Direct-mapped cache of completed page-table walks.
#[derive(Clone, Copy, Debug)]
pub struct TranslationCache {
    pub entries: [Option<TranslationCacheEntry>; 1024],
}

pub open spec fn rotated(value: u64, left: u32) -> u64 {
    (value << left) | (value >> ((64 - left) as u32))
}

impl TranslationCache {
    pub open spec fn empty() -> TranslationCache {
        TranslationCache {
            entries: vstd::array::spec_array_fill_for_copy_type::<
                Option<TranslationCacheEntry>,
                1024,
            >(None),
        }
    }

    /// A cached translation names a page, not a place within one.
    #[verifier::opaque]
    pub open spec fn names_pages(self) -> bool {
        forall|k: int|
            0 <= k < 1024 ==> ((#[trigger] self.entries@[k]) matches Some(entry)
                ==> entry.physical_page & GUEST_PAGE_MASK == 0)
    }

    /// Slot that a page and its context select.
    pub open spec fn slot(virtual_page: u64, context: TranslationContext) -> int {
        let access = match context.access {
            AccessType::Instruction => 0u64,
            AccessType::Load => 1u64,
            AccessType::Store => 2u64,
        };
        let mixed = virtual_page ^ rotated(context.satp, 17) ^ rotated(
            context.permission_context,
            31,
        ) ^ (context.privilege.code() << 5) ^ (access << 3);
        (mixed & 1023) as int
    }

    pub open spec fn lookup_spec(self, address: u64, context: TranslationContext) -> Option<u64> {
        let page = address >> GUEST_PAGE_SHIFT;
        match self.entries@[TranslationCache::slot(page, context)] {
            Some(entry) => if entry.virtual_page == page && entry.context == context {
                Some(entry.physical_page | (address & GUEST_PAGE_MASK))
            } else {
                None
            },
            None => None,
        }
    }

    pub open spec fn insert_spec(
        self,
        address: u64,
        physical: u64,
        context: TranslationContext,
    ) -> TranslationCache {
        let page = address >> GUEST_PAGE_SHIFT;
        TranslationCache {
            entries: vstd::array::spec_array_update(
                self.entries,
                TranslationCache::slot(page, context),
                Some(
                    TranslationCacheEntry {
                        virtual_page: page,
                        physical_page: physical & !GUEST_PAGE_MASK,
                        context,
                    },
                ),
            ),
        }
    }

    pub fn new() -> (r: Self)
        ensures
            r == TranslationCache::empty(),
            r.names_pages(),
    {
        proof {
            TranslationCache::lemma_empty_names_pages();
        }
        TranslationCache { entries: [None::<TranslationCacheEntry>;1024] }
    }

    fn index(virtual_page: u64, context: TranslationContext) -> (r: usize)
        ensures
            r == TranslationCache::slot(virtual_page, context),
            r < 1024,
    {
        let access: u64 = match context.access {
            AccessType::Instruction => 0,
            AccessType::Load => 1,
            AccessType::Store => 2,
        };
        let satp: u64 = (context.satp << 17u32) | (context.satp >> 47u32);
        let permission: u64 = (context.permission_context << 31u32) | (context.permission_context
            >> 33u32);
        let mixed: u64 = virtual_page ^ satp ^ permission ^ (context.privilege.level() << 5) ^ (
        access << 3);
        proof {
            crate::bits::lemma_masked(mixed, 1023, 0, 0, 0, 0);
        }
        (mixed & 1023) as usize
    }

    pub fn lookup(&self, address: u64, context: TranslationContext) -> (r: Option<u64>)
        ensures
            r == self.lookup_spec(address, context),
    {
        let page: u64 = address >> GUEST_PAGE_SHIFT;
        let slot: usize = TranslationCache::index(page, context);
        match self.entries[slot] {
            Some(entry) => {
                if entry.virtual_page == page && entry.context == context {
                    Some(entry.physical_page | (address & GUEST_PAGE_MASK))
                } else {
                    None
                }
            },
            None => None,
        }
    }

    pub fn insert(&mut self, address: u64, physical: u64, context: TranslationContext)
        ensures
            *final(self) == old(self).insert_spec(address, physical, context),
            old(self).names_pages() ==> final(self).names_pages(),
    {
        proof {
            self.lemma_insert_names_pages(address, physical, context);
        }
        let page: u64 = address >> GUEST_PAGE_SHIFT;
        let slot: usize = TranslationCache::index(page, context);
        self.entries[slot] = Some(
            TranslationCacheEntry {
                virtual_page: page,
                physical_page: physical & !GUEST_PAGE_MASK,
                context,
            },
        );
    }

    pub fn clear(&mut self)
        ensures
            *final(self) == TranslationCache::empty(),
            final(self).names_pages(),
    {
        proof {
            TranslationCache::lemma_empty_names_pages();
        }
        self.entries = [None::<TranslationCacheEntry>;1024];
    }

    pub proof fn lemma_empty_names_pages()
        ensures
            TranslationCache::empty().names_pages(),
    {
        reveal(TranslationCache::names_pages);
    }

    /// A cache goes on naming pages.
    pub proof fn lemma_insert_names_pages(
        self,
        address: u64,
        physical: u64,
        context: TranslationContext,
    )
        ensures
            self.names_pages() ==> self.insert_spec(address, physical, context).names_pages(),
    {
        reveal(TranslationCache::names_pages);
        TranslationCache::lemma_slot(address >> GUEST_PAGE_SHIFT, context);
        crate::bits::lemma_masks(physical);
        crate::bits::lemma_masks(physical & !GUEST_PAGE_MASK);
        let after = self.insert_spec(address, physical, context);
        if self.names_pages() {
            assert forall|k: int| 0 <= k < 1024 implies ((
            #[trigger] after.entries@[k]) matches Some(entry) ==> entry.physical_page
                & GUEST_PAGE_MASK == 0) by {
                assert(self.entries@[k] matches Some(entry) ==> entry.physical_page
                    & GUEST_PAGE_MASK == 0);
            }
        }
    }

    /// A cached translation is found again under the same page and context.
    pub proof fn lookup_finds_inserted(
        self,
        address: u64,
        physical: u64,
        context: TranslationContext,
    )
        ensures
            self.insert_spec(address, physical, context).lookup_spec(address, context) == Some(
                (physical & !GUEST_PAGE_MASK) | (address & GUEST_PAGE_MASK),
            ),
    {
        TranslationCache::lemma_slot(address >> GUEST_PAGE_SHIFT, context);
    }

    /// An empty cache answers nothing.
    pub proof fn empty_finds_nothing(address: u64, context: TranslationContext)
        ensures
            TranslationCache::empty().lookup_spec(address, context) is None,
    {
        TranslationCache::lemma_slot(address >> GUEST_PAGE_SHIFT, context);
    }

    pub proof fn lemma_slot(virtual_page: u64, context: TranslationContext)
        ensures
            0 <= TranslationCache::slot(virtual_page, context) < 1024,
    {
        let access = match context.access {
            AccessType::Instruction => 0u64,
            AccessType::Load => 1u64,
            AccessType::Store => 2u64,
        };
        let mixed = virtual_page ^ rotated(context.satp, 17) ^ rotated(
            context.permission_context,
            31,
        ) ^ (context.privilege.code() << 5) ^ (access << 3);
        crate::bits::lemma_masked(mixed, 1023, 0, 0, 0, 0);
    }
}

/// Architectural and scheduling state of one hart.
#[derive(Clone, Copy, Debug)]
pub struct HartState {
    pub id: usize,
    pub lifecycle: HartLifecycle,
    pub cpu: Cpu,
    pub csrs: CsrFile,
    pub cycle: u64,
    pub instret: u64,
    pub reservation: Option<(u64, u8)>,
    pub timer_deadline: u64,
    pub msip: bool,
    pub translation_cache: TranslationCache,
}

pub open spec fn raise_or_clear(status: u64, condition: u64, target: u64) -> u64 {
    if status & condition == 0 {
        status & !target
    } else {
        status | target
    }
}

/// Status after entering supervisor mode from `origin`.
pub open spec fn supervisor_entry_status(status: u64, origin: Privilege) -> u64 {
    let previous = if origin == Privilege::User {
        status & !MSTATUS_SPP
    } else {
        status | MSTATUS_SPP
    };
    raise_or_clear(previous, MSTATUS_SIE, MSTATUS_SPIE) & !MSTATUS_SIE
}

/// Status after entering machine mode from `origin`.
pub open spec fn machine_entry_status(status: u64, origin: Privilege) -> u64 {
    let previous = (status & !MSTATUS_MPP) | (origin.code() << MSTATUS_MPP_SHIFT);
    raise_or_clear(previous, MSTATUS_MIE, MSTATUS_MPIE) & !MSTATUS_MIE
}

fn raise_or_clear_bits(status: u64, condition: u64, target: u64) -> (r: u64)
    ensures
        r == raise_or_clear(status, condition, target),
{
    if status & condition == 0 {
        status & !target
    } else {
        status | target
    }
}

fn supervisor_entry(status: u64, origin: Privilege) -> (r: u64)
    ensures
        r == supervisor_entry_status(status, origin),
{
    let previous: u64 = if origin == Privilege::User {
        status & !MSTATUS_SPP
    } else {
        status | MSTATUS_SPP
    };
    raise_or_clear_bits(previous, MSTATUS_SIE, MSTATUS_SPIE) & !MSTATUS_SIE
}

fn machine_entry(status: u64, origin: Privilege) -> (r: u64)
    ensures
        r == machine_entry_status(status, origin),
{
    let previous: u64 = (status & !MSTATUS_MPP) | (origin.level() << MSTATUS_MPP_SHIFT);
    raise_or_clear_bits(previous, MSTATUS_MIE, MSTATUS_MPIE) & !MSTATUS_MIE
}

impl HartState {
    pub open spec fn wf(self) -> bool {
        self.cpu.wf() && self.translation_cache.names_pages()
    }

    pub open spec fn fresh(id: usize, lifecycle: HartLifecycle) -> HartState {
        HartState {
            id,
            lifecycle,
            cpu: Cpu::reset_state(),
            csrs: CsrFile::zero(),
            cycle: 0,
            instret: 0,
            reservation: None,
            timer_deadline: u64::MAX,
            msip: false,
            translation_cache: TranslationCache::empty(),
        }
    }

    /// State in which supervisor firmware hands a hart to its start address.
    pub open spec fn started_at(self, id: usize, address: u64, opaque: u64) -> HartState {
        HartState {
            lifecycle: HartLifecycle::Started,
            cpu: Cpu { pc: address, privilege: Privilege::Supervisor, ..Cpu::reset_state() }.set(
                10,
                id as u64,
            ).set(11, opaque),
            csrs: CsrFile {
                medeleg: MEDELEG_SUPPORTED,
                mideleg: MIDELEG_SUPPORTED,
                mcounteren: 7,
                ..CsrFile::zero()
            },
            cycle: 0,
            instret: 0,
            reservation: None,
            timer_deadline: u64::MAX,
            msip: false,
            translation_cache: TranslationCache::empty(),
            ..self
        }
    }

    pub open spec fn write_register(self, register: int, value: u64) -> HartState {
        HartState { cpu: self.cpu.set(register, value), ..self }
    }

    pub open spec fn write_f32(self, register: int, value: u32) -> HartState {
        HartState { cpu: self.cpu.set_f32(register, value), ..self }
    }

    pub open spec fn write_f64(self, register: int, value: u64) -> HartState {
        HartState { cpu: self.cpu.set_f64(register, value), ..self }
    }

    pub open spec fn dirty_float(self) -> HartState {
        HartState { csrs: self.csrs.float_dirty(), ..self }
    }

    pub open spec fn jump(self, pc: u64) -> HartState {
        HartState { cpu: Cpu { pc, ..self.cpu }, ..self }
    }

    pub fn new(id: usize, lifecycle: HartLifecycle) -> (r: Self)
        ensures
            r == HartState::fresh(id, lifecycle),
            r.wf(),
    {
        HartState {
            id,
            lifecycle,
            cpu: Cpu::new(),
            csrs: CsrFile::new(),
            cycle: 0,
            instret: 0,
            reservation: None,
            timer_deadline: u64::MAX,
            msip: false,
            translation_cache: TranslationCache::new(),
        }
    }

    pub fn start_at(&mut self, id: usize, address: u64, opaque: u64)
        ensures
            *final(self) == old(self).started_at(id, address, opaque),
            final(self).wf(),
    {
        self.lifecycle = HartLifecycle::Started;
        self.cpu.reset();
        self.cpu.pc = address;
        self.cpu.privilege = Privilege::Supervisor;
        self.cpu.write(10, id as u64);
        self.cpu.write(11, opaque);
        self.csrs.reset();
        self.csrs.medeleg = MEDELEG_SUPPORTED;
        self.csrs.mideleg = MIDELEG_SUPPORTED;
        self.csrs.mcounteren = 7;
        self.cycle = 0;
        self.instret = 0;
        self.reservation = None;
        self.timer_deadline = u64::MAX;
        self.msip = false;
        self.translation_cache.clear();
    }

    /// Hart after the hardware-driven pending bits follow the CLINT.
    pub open spec fn refreshed(self, mtime: u64, firmware: bool) -> HartState {
        let software = if self.msip {
            MIP_MSIP
        } else {
            0u64
        };
        let timer = if mtime >= self.timer_deadline {
            if firmware {
                MIP_STIP
            } else {
                MIP_MTIP
            }
        } else {
            0u64
        };
        let mask = if firmware {
            MIP_MSIP | MIP_MTIP | MIP_STIP
        } else {
            MIP_MSIP | MIP_MTIP
        };
        HartState {
            csrs: CsrFile { mip: (self.csrs.mip & !mask) | (software | timer), ..self.csrs },
            ..self
        }
    }

    pub fn refresh_hardware_interrupts(&mut self, mtime: u64, firmware: bool)
        ensures
            *final(self) == old(self).refreshed(mtime, firmware),
    {
        let software: u64 = if self.msip {
            MIP_MSIP
        } else {
            0
        };
        let timer: u64 = if mtime >= self.timer_deadline {
            if firmware {
                MIP_STIP
            } else {
                MIP_MTIP
            }
        } else {
            0
        };
        let mask: u64 = if firmware {
            MIP_MSIP | MIP_MTIP | MIP_STIP
        } else {
            MIP_MSIP | MIP_MTIP
        };
        self.csrs.mip = (self.csrs.mip & !mask) | (software | timer);
    }

    /// Whether an interrupt is taken now, and if so whether it is delegated.
    pub open spec fn ready_spec(self, cause: u64) -> Option<bool> {
        let mask = 1u64 << cause;
        let delegated = self.cpu.privilege != Privilege::Machine && self.csrs.mideleg & mask != 0;
        let enabled = if delegated {
            self.cpu.privilege == Privilege::User || self.csrs.mstatus & MSTATUS_SIE != 0
        } else {
            self.cpu.privilege != Privilege::Machine || self.csrs.mstatus & MSTATUS_MIE != 0
        };
        if (self.csrs.mie & self.csrs.mip) & mask != 0 && enabled {
            Some(delegated)
        } else {
            None
        }
    }

    /// The interrupt of highest priority that is taken now.
    pub open spec fn interrupt_spec(self) -> Option<(u64, bool)> {
        if self.ready_spec(INTERRUPT_MACHINE_EXTERNAL) is Some {
            Some(
                (INTERRUPT_MACHINE_EXTERNAL, self.ready_spec(INTERRUPT_MACHINE_EXTERNAL)->0),
            )
        } else if self.ready_spec(INTERRUPT_MACHINE_SOFTWARE) is Some {
            Some((INTERRUPT_MACHINE_SOFTWARE, self.ready_spec(INTERRUPT_MACHINE_SOFTWARE)->0))
        } else if self.ready_spec(INTERRUPT_MACHINE_TIMER) is Some {
            Some((INTERRUPT_MACHINE_TIMER, self.ready_spec(INTERRUPT_MACHINE_TIMER)->0))
        } else if self.ready_spec(INTERRUPT_SUPERVISOR_EXTERNAL) is Some {
            Some(
                (INTERRUPT_SUPERVISOR_EXTERNAL, self.ready_spec(INTERRUPT_SUPERVISOR_EXTERNAL)->0),
            )
        } else if self.ready_spec(INTERRUPT_SUPERVISOR_SOFTWARE) is Some {
            Some(
                (INTERRUPT_SUPERVISOR_SOFTWARE, self.ready_spec(INTERRUPT_SUPERVISOR_SOFTWARE)->0),
            )
        } else if self.ready_spec(INTERRUPT_SUPERVISOR_TIMER) is Some {
            Some((INTERRUPT_SUPERVISOR_TIMER, self.ready_spec(INTERRUPT_SUPERVISOR_TIMER)->0))
        } else {
            None
        }
    }

    fn ready(&self, cause: u64) -> (r: Option<bool>)
        requires
            cause < 64,
        ensures
            r == self.ready_spec(cause),
    {
        let mask: u64 = 1u64 << cause;
        if (self.csrs.mie & self.csrs.mip) & mask == 0 {
            return None;
        }
        let delegated: bool = self.cpu.privilege != Privilege::Machine && self.csrs.mideleg & mask
            != 0;
        let enabled: bool = if delegated {
            self.cpu.privilege == Privilege::User || self.csrs.mstatus & MSTATUS_SIE != 0
        } else {
            self.cpu.privilege != Privilege::Machine || self.csrs.mstatus & MSTATUS_MIE != 0
        };
        if enabled {
            Some(delegated)
        } else {
            None
        }
    }

    fn pending_interrupt(&self) -> (r: Option<(u64, bool)>)
        ensures
            r == self.interrupt_spec(),
            r matches Some(i) ==> i.0 < 64,
    {
        if let Some(delegated) = self.ready(INTERRUPT_MACHINE_EXTERNAL) {
            return Some((INTERRUPT_MACHINE_EXTERNAL, delegated));
        }
        if let Some(delegated) = self.ready(INTERRUPT_MACHINE_SOFTWARE) {
            return Some((INTERRUPT_MACHINE_SOFTWARE, delegated));
        }
        if let Some(delegated) = self.ready(INTERRUPT_MACHINE_TIMER) {
            return Some((INTERRUPT_MACHINE_TIMER, delegated));
        }
        if let Some(delegated) = self.ready(INTERRUPT_SUPERVISOR_EXTERNAL) {
            return Some((INTERRUPT_SUPERVISOR_EXTERNAL, delegated));
        }
        if let Some(delegated) = self.ready(INTERRUPT_SUPERVISOR_SOFTWARE) {
            return Some((INTERRUPT_SUPERVISOR_SOFTWARE, delegated));
        }
        if let Some(delegated) = self.ready(INTERRUPT_SUPERVISOR_TIMER) {
            return Some((INTERRUPT_SUPERVISOR_TIMER, delegated));
        }
        None
    }

    /// Hart after entering an interrupt handler.
    pub open spec fn interrupted(self, cause: u64, delegated: bool) -> HartState {
        let origin = self.cpu.privilege;
        if delegated {
            HartState {
                reservation: None,
                csrs: CsrFile {
                    sepc: self.cpu.pc & !1u64,
                    scause: INTERRUPT_CAUSE_BIT | cause,
                    stval: 0,
                    mstatus: supervisor_entry_status(self.csrs.mstatus, origin),
                    ..self.csrs
                },
                cpu: Cpu {
                    privilege: Privilege::Supervisor,
                    pc: isa::vector_target(self.csrs.stvec, cause),
                    ..self.cpu
                },
                ..self
            }
        } else {
            HartState {
                reservation: None,
                csrs: CsrFile {
                    mepc: self.cpu.pc & !1u64,
                    mcause: INTERRUPT_CAUSE_BIT | cause,
                    mtval: 0,
                    mstatus: machine_entry_status(self.csrs.mstatus, origin),
                    ..self.csrs
                },
                cpu: Cpu {
                    privilege: Privilege::Machine,
                    pc: isa::vector_target(self.csrs.mtvec, cause),
                    ..self.cpu
                },
                ..self
            }
        }
    }

    fn take_interrupt(&mut self, cause: u64, delegated: bool)
        requires
            cause < 64,
        ensures
            *final(self) == old(self).interrupted(cause, delegated),
    {
        let origin = self.cpu.privilege;
        let pc: u64 = self.cpu.pc;
        self.reservation = None;
        if delegated {
            self.csrs.sepc = pc & !1u64;
            self.csrs.scause = INTERRUPT_CAUSE_BIT | cause;
            self.csrs.stval = 0;
            self.csrs.mstatus = supervisor_entry(self.csrs.mstatus, origin);
            self.cpu.privilege = Privilege::Supervisor;
            self.cpu.pc = interrupt_vector(self.csrs.stvec, cause);
        } else {
            self.csrs.mepc = pc & !1u64;
            self.csrs.mcause = INTERRUPT_CAUSE_BIT | cause;
            self.csrs.mtval = 0;
            self.csrs.mstatus = machine_entry(self.csrs.mstatus, origin);
            self.cpu.privilege = Privilege::Machine;
            self.cpu.pc = interrupt_vector(self.csrs.mtvec, cause);
        }
    }

    pub fn take_pending_interrupt(&mut self) -> (r: bool)
        ensures
            match old(self).interrupt_spec() {
                Some(i) => r && *final(self) == old(self).interrupted(i.0, i.1),
                None => !r && *final(self) == *old(self),
            },
    {
        match self.pending_interrupt() {
            Some((cause, delegated)) => {
                self.take_interrupt(cause, delegated);
                true
            },
            None => false,
        }
    }

    /// Hart after entering an exception handler.
    pub open spec fn excepted(self, cause: u64, value: u64, pc: u64) -> HartState {
        let origin = self.cpu.privilege;
        if origin != Privilege::Machine && self.csrs.medeleg & (1u64 << cause) != 0 {
            HartState {
                reservation: None,
                csrs: CsrFile {
                    sepc: pc & !1u64,
                    scause: cause,
                    stval: value,
                    mstatus: supervisor_entry_status(self.csrs.mstatus, origin),
                    ..self.csrs
                },
                cpu: Cpu {
                    privilege: Privilege::Supervisor,
                    pc: self.csrs.stvec & !3u64,
                    ..self.cpu
                },
                ..self
            }
        } else {
            HartState {
                reservation: None,
                csrs: CsrFile {
                    mepc: pc & !1u64,
                    mcause: cause,
                    mtval: value,
                    mstatus: machine_entry_status(self.csrs.mstatus, origin),
                    ..self.csrs
                },
                cpu: Cpu {
                    privilege: Privilege::Machine,
                    pc: self.csrs.mtvec & !3u64,
                    ..self.cpu
                },
                ..self
            }
        }
    }

    pub fn take_exception(&mut self, cause: u64, value: u64, pc: u64)
        requires
            cause < 64,
        ensures
            *final(self) == old(self).excepted(cause, value, pc),
    {
        let origin = self.cpu.privilege;
        self.reservation = None;
        if origin != Privilege::Machine && self.csrs.medeleg & (1u64 << cause) != 0 {
            self.csrs.sepc = pc & !1u64;
            self.csrs.scause = cause;
            self.csrs.stval = value;
            self.csrs.mstatus = supervisor_entry(self.csrs.mstatus, origin);
            self.cpu.privilege = Privilege::Supervisor;
            self.cpu.pc = self.csrs.stvec & !3u64;
        } else {
            self.csrs.mepc = pc & !1u64;
            self.csrs.mcause = cause;
            self.csrs.mtval = value;
            self.csrs.mstatus = machine_entry(self.csrs.mstatus, origin);
            self.cpu.privilege = Privilege::Machine;
            self.cpu.pc = self.csrs.mtvec & !3u64;
        }
    }

    /// Status after `mret` to `target`.
    pub open spec fn mret_status(status: u64, target: Privilege) -> u64 {
        let returned = (raise_or_clear(status, MSTATUS_MPIE, MSTATUS_MIE) | MSTATUS_MPIE)
            & !MSTATUS_MPP;
        if target != Privilege::Machine {
            returned & !MSTATUS_MPRV
        } else {
            returned
        }
    }

    pub open spec fn mret_spec(self, pc: u64, instruction: u32) -> (
        HartState,
        Result<u64, MachineTrap>,
    ) {
        let target = self.csrs.get(Csr::Mepc);
        if self.cpu.privilege != Privilege::Machine {
            (self, Err(isa::illegal_spec(pc, instruction)))
        } else {
            match isa::instruction_aligned_spec(target) {
                Err(trap) => (self, Err(trap)),
                Ok(_) => match Privilege::of_mpp(self.csrs.mstatus) {
                    None => (self, Err(isa::illegal_spec(pc, instruction))),
                    Some(privilege) => (
                        HartState {
                            csrs: CsrFile {
                                mstatus: HartState::mret_status(self.csrs.mstatus, privilege),
                                ..self.csrs
                            },
                            cpu: Cpu { privilege, ..self.cpu },
                            ..self
                        },
                        Ok(target),
                    ),
                },
            }
        }
    }

    pub fn execute_mret(&mut self, pc: u64, instruction: u32) -> (r: Result<u64, MachineTrap>)
        ensures
            (*final(self), r) == old(self).mret_spec(pc, instruction),
    {
        if self.cpu.privilege != Privilege::Machine {
            return Err(illegal(pc, instruction));
        }
        let target: u64 = self.csrs.read(Csr::Mepc);
        ensure_instruction_aligned(target)?;
        let privilege = match Privilege::from_mpp(self.csrs.mstatus) {
            Some(privilege) => privilege,
            None => {
                return Err(illegal(pc, instruction));
            },
        };
        let mut status: u64 = (raise_or_clear_bits(self.csrs.mstatus, MSTATUS_MPIE, MSTATUS_MIE)
            | MSTATUS_MPIE) & !MSTATUS_MPP;
        if privilege != Privilege::Machine {
            status = status & !MSTATUS_MPRV;
        }
        self.csrs.mstatus = status;
        self.cpu.privilege = privilege;
        Ok(target)
    }

    pub open spec fn sret_spec(self, pc: u64, instruction: u32) -> (
        HartState,
        Result<u64, MachineTrap>,
    ) {
        let target = self.csrs.get(Csr::Sepc);
        let privilege = if self.csrs.mstatus & MSTATUS_SPP == 0 {
            Privilege::User
        } else {
            Privilege::Supervisor
        };
        if self.cpu.privilege == Privilege::User {
            (self, Err(isa::illegal_spec(pc, instruction)))
        } else {
            match isa::instruction_aligned_spec(target) {
                Err(trap) => (self, Err(trap)),
                Ok(_) => (
                    HartState {
                        csrs: CsrFile {
                            mstatus: ((raise_or_clear(self.csrs.mstatus, MSTATUS_SPIE, MSTATUS_SIE)
                                | MSTATUS_SPIE) & !MSTATUS_SPP) & !MSTATUS_MPRV,
                            ..self.csrs
                        },
                        cpu: Cpu { privilege, ..self.cpu },
                        ..self
                    },
                    Ok(target),
                ),
            }
        }
    }

    pub fn execute_sret(&mut self, pc: u64, instruction: u32) -> (r: Result<u64, MachineTrap>)
        ensures
            (*final(self), r) == old(self).sret_spec(pc, instruction),
    {
        if self.cpu.privilege == Privilege::User {
            return Err(illegal(pc, instruction));
        }
        let target: u64 = self.csrs.read(Csr::Sepc);
        ensure_instruction_aligned(target)?;
        let privilege = if self.csrs.mstatus & MSTATUS_SPP == 0 {
            Privilege::User
        } else {
            Privilege::Supervisor
        };
        self.csrs.mstatus = ((raise_or_clear_bits(self.csrs.mstatus, MSTATUS_SPIE, MSTATUS_SIE)
            | MSTATUS_SPIE) & !MSTATUS_SPP) & !MSTATUS_MPRV;
        self.cpu.privilege = privilege;
        Ok(target)
    }

    /// An exception leaves the handler privileged at least as much as the code
    /// it interrupted, with that level's interrupts disabled.
    pub proof fn exception_entry_masks_interrupts(self, cause: u64, value: u64, pc: u64)
        ensures
            self.cpu.privilege.code() <= self.excepted(cause, value, pc).cpu.privilege.code(),
            self.excepted(cause, value, pc).reservation is None,
            self.excepted(cause, value, pc).cpu.privilege == Privilege::Machine ==> self.excepted(
                cause,
                value,
                pc,
            ).csrs.mstatus & MSTATUS_MIE == 0,
            self.excepted(cause, value, pc).cpu.privilege == Privilege::Supervisor
                ==> self.excepted(cause, value, pc).csrs.mstatus & MSTATUS_SIE == 0,
    {
        let origin = self.cpu.privilege;
        let p = (self.csrs.mstatus & !MSTATUS_MPP) | (origin.code() << MSTATUS_MPP_SHIFT);
        let m = raise_or_clear(p, MSTATUS_MIE, MSTATUS_MPIE);
        let q = if origin == Privilege::User {
            self.csrs.mstatus & !MSTATUS_SPP
        } else {
            self.csrs.mstatus | MSTATUS_SPP
        };
        let s = raise_or_clear(q, MSTATUS_SIE, MSTATUS_SPIE);
        assert((m & !0x8u64) & 0x8 == 0 && (s & !0x2u64) & 0x2 == 0) by (bit_vector);
    }
}

} // verus!
