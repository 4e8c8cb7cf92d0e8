//! What every machine that was booted and run keeps true of its harts.

use crate::codec;
use crate::cpu::CsrFile;
use crate::floating;
use crate::hart;
use crate::hart::{HartState, TranslationCache, TranslationContext};
use crate::isa;
use crate::isa::{
    Csr, Privilege, GUEST_PAGE_MASK, INTERRUPT_SUPPORTED, MEDELEG_SUPPORTED, MIDELEG_SUPPORTED,
    MIP_MSIP, MIP_MTIP, MIP_SSIP, MIP_STIP, MSTATUS_FS, MSTATUS_FS_DIRTY, MSTATUS_MIE,
    MSTATUS_MPIE, MSTATUS_MPP, MSTATUS_MPP_SHIFT, MSTATUS_MPRV, MSTATUS_SIE, MSTATUS_SPIE,
    MSTATUS_SPP, MSTATUS_WRITABLE, SATP_ASID_MASK, SATP_MODE_SHIFT, SATP_PPN_MASK,
    SSTATUS_WRITABLE,
};
use crate::softfloat::Rounding;
use vstd::prelude::*;

verus! {

/// Hart `id`: register zero is zero, the program counter is even, every control
/// register holds a legal value, and the cache names pages.
pub open spec fn fit(hart: HartState, id: int) -> bool {
    &&& hart.id == id
    &&& hart.cpu.wf()
    &&& hart.cpu.pc % 2 == 0
    &&& codec::csrs_valid(hart.csrs)
    &&& hart.translation_cache.names_pages()
}

/// Only the registers of a hart and its control registers changed, and not its
/// place or privilege.
pub open spec fn steady(a: HartState, b: HartState) -> bool {
    &&& b.id == a.id
    &&& b.cpu.pc == a.cpu.pc
    &&& b.cpu.privilege == a.cpu.privilege
    &&& b.translation_cache == a.translation_cache
    &&& a.cpu.wf() ==> b.cpu.wf()
    &&& codec::csrs_valid(a.csrs) ==> codec::csrs_valid(b.csrs)
}

// Bits.

proof fn lemma_status_writes(s: u64, v: u64)
    by (bit_vector)
    requires
        s & !MSTATUS_WRITABLE == 0,
    ensures
        ((s & !MSTATUS_FS) | MSTATUS_FS_DIRTY) & !MSTATUS_WRITABLE == 0,
        ((s & !SSTATUS_WRITABLE) | (v & SSTATUS_WRITABLE)) & !MSTATUS_WRITABLE == 0,
        ((s & !MSTATUS_WRITABLE) | (v & MSTATUS_WRITABLE)) & !MSTATUS_WRITABLE == 0,
        ((s & !MSTATUS_WRITABLE) | ((v & MSTATUS_WRITABLE) & !MSTATUS_MPP)) & !MSTATUS_WRITABLE
            == 0,
{
}

proof fn lemma_status_entries(s: u64, c: u64)
    by (bit_vector)
    requires
        s & !MSTATUS_WRITABLE == 0,
        c == 0 || c == 1 || c == 3,
    ensures
        (((s & !MSTATUS_SPP) & !MSTATUS_SPIE) & !MSTATUS_SIE) & !MSTATUS_WRITABLE == 0,
        (((s & !MSTATUS_SPP) | MSTATUS_SPIE) & !MSTATUS_SIE) & !MSTATUS_WRITABLE == 0,
        (((s | MSTATUS_SPP) & !MSTATUS_SPIE) & !MSTATUS_SIE) & !MSTATUS_WRITABLE == 0,
        (((s | MSTATUS_SPP) | MSTATUS_SPIE) & !MSTATUS_SIE) & !MSTATUS_WRITABLE == 0,
        ((((s & !MSTATUS_MPP) | (c << MSTATUS_MPP_SHIFT)) & !MSTATUS_MPIE) & !MSTATUS_MIE)
            & !MSTATUS_WRITABLE == 0,
        ((((s & !MSTATUS_MPP) | (c << MSTATUS_MPP_SHIFT)) | MSTATUS_MPIE) & !MSTATUS_MIE)
            & !MSTATUS_WRITABLE == 0,
        (((s & !MSTATUS_MIE) | MSTATUS_MPIE) & !MSTATUS_MPP) & !MSTATUS_WRITABLE == 0,
        (((s | MSTATUS_MIE) | MSTATUS_MPIE) & !MSTATUS_MPP) & !MSTATUS_WRITABLE == 0,
        ((((s & !MSTATUS_MIE) | MSTATUS_MPIE) & !MSTATUS_MPP) & !MSTATUS_MPRV) & !MSTATUS_WRITABLE
            == 0,
        ((((s | MSTATUS_MIE) | MSTATUS_MPIE) & !MSTATUS_MPP) & !MSTATUS_MPRV) & !MSTATUS_WRITABLE
            == 0,
        ((((s & !MSTATUS_SIE) | MSTATUS_SPIE) & !MSTATUS_SPP) & !MSTATUS_MPRV) & !MSTATUS_WRITABLE
            == 0,
        ((((s | MSTATUS_SIE) | MSTATUS_SPIE) & !MSTATUS_SPP) & !MSTATUS_MPRV) & !MSTATUS_WRITABLE
            == 0,
{
}

proof fn lemma_interrupt_bits(p: u64, v: u64, d: u64, q: u64)
    by (bit_vector)
    requires
        p & !INTERRUPT_SUPPORTED == 0,
        q & !INTERRUPT_SUPPORTED == 0,
        d & !MIDELEG_SUPPORTED == 0,
    ensures
        ((p & !d) | (v & d)) & !INTERRUPT_SUPPORTED == 0,
        ((p & !(MIP_SSIP & d)) | (v & (MIP_SSIP & d))) & !INTERRUPT_SUPPORTED == 0,
        ((p & !(MIP_SSIP | MIP_STIP)) | (v & (MIP_SSIP | MIP_STIP))) & !INTERRUPT_SUPPORTED == 0,
        (p | q) & !INTERRUPT_SUPPORTED == 0,
        (p & !MIP_STIP) & !INTERRUPT_SUPPORTED == 0,
        (v & INTERRUPT_SUPPORTED) & !INTERRUPT_SUPPORTED == 0,
        (p | MIP_SSIP) & !INTERRUPT_SUPPORTED == 0,
        p | 0 == p,
        0u64 & !INTERRUPT_SUPPORTED == 0,
{
}

proof fn lemma_hardware_bits(p: u64, mask: u64, software: u64, timer: u64)
    by (bit_vector)
    requires
        p & !INTERRUPT_SUPPORTED == 0,
        software == MIP_MSIP || software == 0,
        timer == MIP_STIP || timer == MIP_MTIP || timer == 0,
    ensures
        ((p & !mask) | (software | timer)) & !INTERRUPT_SUPPORTED == 0,
{
}

proof fn lemma_value_bits(v: u64)
    by (bit_vector)
    ensures
        (v & !1u64) & 1 == 0,
        (v & !1u64) % 2 == 0,
        (v & !3u64) % 4 == 0,
        (v & !3u64) & 3 == 0,
        (v & 7) & !7u64 == 0,
        (v & MEDELEG_SUPPORTED) & !MEDELEG_SUPPORTED == 0,
        (v & MIDELEG_SUPPORTED) & !MIDELEG_SUPPORTED == 0,
        (((v >> SATP_MODE_SHIFT) << SATP_MODE_SHIFT) | (v & SATP_ASID_MASK) | (v & SATP_PPN_MASK))
            >> SATP_MODE_SHIFT == v >> SATP_MODE_SHIFT,
        (v & !GUEST_PAGE_MASK) & GUEST_PAGE_MASK == 0,
        (v & 1 == 0) == (v % 2 == 0),
        0u64 & !MSTATUS_WRITABLE == 0,
        0u64 & !INTERRUPT_SUPPORTED == 0,
        0u64 & !MEDELEG_SUPPORTED == 0,
        0u64 & !MIDELEG_SUPPORTED == 0,
        MEDELEG_SUPPORTED & !MEDELEG_SUPPORTED == 0,
        MIDELEG_SUPPORTED & !MIDELEG_SUPPORTED == 0,
        0u64 & !7u64 == 0,
        7u64 & !7u64 == 0,
        0u64 >> SATP_MODE_SHIFT == 0,
        0u64 & 3 == 0,
        0u64 & 1 == 0,
{
}

proof fn lemma_page_bits(page: u64, address: u64)
    by (bit_vector)
    ensures
        page & GUEST_PAGE_MASK == 0 ==> (page | (address & GUEST_PAGE_MASK)) & GUEST_PAGE_MASK
            == address & GUEST_PAGE_MASK,
        ((page << 12) | (address & GUEST_PAGE_MASK)) & GUEST_PAGE_MASK == address & GUEST_PAGE_MASK,
{
}

pub proof fn lemma_fields(instruction: u32, half: u16, shift: u32, half_shift: u16)
    by (bit_vector)
    ensures
        (instruction >> shift) & 0x1f < 32,
        (half >> half_shift) & 0x1f < 32,
        (half >> half_shift) & 0x7 < 8,
{
}

// Control registers.

pub proof fn lemma_zero_csrs()
    ensures
        codec::csrs_valid(CsrFile::zero()),
        codec::csrs_valid(
            (CsrFile {
                medeleg: MEDELEG_SUPPORTED,
                mideleg: MIDELEG_SUPPORTED,
                mcounteren: 7,
                ..CsrFile::zero()
            }),
        ),
{
    lemma_value_bits(0);
}

proof fn lemma_float_csrs(csrs: CsrFile, flags: u8)
    requires
        codec::csrs_valid(csrs),
    ensures
        codec::csrs_valid(csrs.float_dirty()),
        codec::csrs_valid(csrs.with_float_flags(flags)),
{
    lemma_status_writes(csrs.mstatus, 0);
}

pub proof fn lemma_written_csrs(csrs: CsrFile, csr: Csr, value: u64)
    requires
        codec::csrs_valid(csrs),
    ensures
        codec::csrs_valid(csrs.set(csr, value)),
{
    lemma_status_writes(csrs.mstatus, value);
    lemma_interrupt_bits(csrs.mip, value, csrs.mideleg, csrs.mip);
    lemma_interrupt_bits(csrs.mie, value, csrs.mideleg, csrs.mip);
    lemma_value_bits(value);
}

pub proof fn lemma_interrupts_added(csrs: CsrFile, more: u64)
    requires
        codec::csrs_valid(csrs),
        more & !INTERRUPT_SUPPORTED == 0,
    ensures
        codec::csrs_valid((CsrFile { mip: csrs.mip | more, ..csrs })),
        codec::csrs_valid((CsrFile { mip: csrs.mip & !MIP_STIP, ..csrs })),
        (more | MIP_SSIP) & !INTERRUPT_SUPPORTED == 0,
        0u64 & !INTERRUPT_SUPPORTED == 0,
        csrs.mip | 0 == csrs.mip,
{
    lemma_interrupt_bits(csrs.mip, 0, csrs.mideleg, more);
    lemma_interrupt_bits(more, 0, csrs.mideleg, more);
}

pub proof fn lemma_nothing_added(pending: u64)
    ensures
        pending | 0 == pending,
        0u64 & !INTERRUPT_SUPPORTED == 0,
{
    assert(pending | 0 == pending && 0u64 & !INTERRUPT_SUPPORTED == 0) by (bit_vector);
}

pub proof fn lemma_poke_is_an_interrupt(pending: u64)
    ensures
        pending & !INTERRUPT_SUPPORTED == 0 ==> (pending | MIP_SSIP) & !INTERRUPT_SUPPORTED == 0,
{
    if pending & !INTERRUPT_SUPPORTED == 0 {
        lemma_value_bits(0);
        lemma_interrupt_bits(pending, 0, 0, pending);
    }
}

pub proof fn lemma_even(value: u64)
    ensures
        (value & 1 == 0) == (value % 2 == 0),
{
    lemma_value_bits(value);
}

// Harts.

pub proof fn lemma_fresh_hart(id: usize, lifecycle: hart::HartLifecycle)
    ensures
        fit(HartState::fresh(id, lifecycle), id as int),
{
    TranslationCache::lemma_empty_names_pages();
    lemma_zero_csrs();
}

/// A cache goes on naming pages.
pub proof fn lemma_inserted_cache(
    hart: HartState,
    id: int,
    address: u64,
    physical: u64,
    context: TranslationContext,
)
    ensures
        fit(hart, id) ==> fit(
            (HartState {
                translation_cache: hart.translation_cache.insert_spec(address, physical, context),
                ..hart
            }),
            id,
        ),
{
    hart.translation_cache.lemma_insert_names_pages(address, physical, context);
}

/// What a page-naming cache finds keeps the place within the page.
pub proof fn lemma_found_offset(
    cache: TranslationCache,
    address: u64,
    context: TranslationContext,
)
    ensures
        cache.names_pages() ==> (cache.lookup_spec(address, context) matches Some(physical)
            ==> physical & GUEST_PAGE_MASK == address & GUEST_PAGE_MASK),
{
    reveal(TranslationCache::names_pages);
    let page = address >> isa::GUEST_PAGE_SHIFT;
    TranslationCache::lemma_slot(page, context);
    if let Some(entry) = cache.entries@[TranslationCache::slot(page, context)] {
        lemma_page_bits(entry.physical_page, address);
    }
}

/// So does a leaf entry.
pub proof fn lemma_leaf_offset(pte: u64, address: u64, level: nat)
    ensures
        crate::mmu::leaf_address(pte, address, level) & GUEST_PAGE_MASK == address
            & GUEST_PAGE_MASK,
{
    let ppn = (pte >> 10) & isa::PTE_PPN_MASK;
    let low = crate::mmu::table_index(address, 0);
    let middle = crate::mmu::table_index(address, 1);
    lemma_page_bits(ppn, address);
    lemma_page_bits((ppn & !0x1ffu64) | low, address);
    lemma_page_bits((((ppn & !0x1ffu64) | low) & !0x3_ffffu64) | (middle << 9) | low, address);
}

pub proof fn lemma_started_hart(hart: HartState, id: usize, address: u64, opaque: u64)
    requires
        address % 2 == 0,
        hart.id == id,
    ensures
        fit(hart.started_at(id, address, opaque), id as int),
{
    lemma_zero_csrs();
    TranslationCache::lemma_empty_names_pages();
}

pub proof fn lemma_booted_hart(hart: HartState)
    requires
        fit(hart, hart.id as int),
        hart.csrs == CsrFile::zero(),
    ensures
        fit(crate::boot::boot_hart(hart), hart.id as int),
{
    lemma_zero_csrs();
}

pub proof fn lemma_refreshed_hart(hart: HartState, id: int, mtime: u64, firmware: bool)
    ensures
        fit(hart, id) ==> fit(hart.refreshed(mtime, firmware), id),
        hart.refreshed(mtime, firmware).cpu == hart.cpu,
{
    if codec::csrs_valid(hart.csrs) {
        let software = if hart.msip {
            MIP_MSIP
        } else {
            0u64
        };
        let timer = if mtime >= hart.timer_deadline {
            if firmware {
                MIP_STIP
            } else {
                MIP_MTIP
            }
        } else {
            0u64
        };
        let mask = if firmware {
            MIP_MSIP | MIP_MTIP | MIP_STIP
        } else {
            MIP_MSIP | MIP_MTIP
        };
        lemma_hardware_bits(hart.csrs.mip, mask, software, timer);
    }
}

proof fn lemma_entries(csrs: CsrFile, origin: Privilege)
    requires
        codec::csrs_valid(csrs),
    ensures
        hart::supervisor_entry_status(csrs.mstatus, origin) & !MSTATUS_WRITABLE == 0,
        hart::machine_entry_status(csrs.mstatus, origin) & !MSTATUS_WRITABLE == 0,
{
    lemma_status_entries(csrs.mstatus, origin.code());
}

pub proof fn lemma_excepted_hart(hart: HartState, id: int, cause: u64, value: u64, pc: u64)
    requires
        fit(hart, id),
    ensures
        fit(hart.excepted(cause, value, pc), id),
{
    lemma_entries(hart.csrs, hart.cpu.privilege);
    lemma_value_bits(pc);
    lemma_value_bits(hart.csrs.stvec);
    lemma_value_bits(hart.csrs.mtvec);
}

pub proof fn lemma_interrupted_hart(hart: HartState, id: int, cause: u64, delegated: bool)
    requires
        fit(hart, id),
        cause < 64,
    ensures
        fit(hart.interrupted(cause, delegated), id),
{
    lemma_entries(hart.csrs, hart.cpu.privilege);
    lemma_value_bits(hart.cpu.pc);
    lemma_value_bits(hart.csrs.stvec);
    lemma_value_bits(hart.csrs.mtvec);
}

pub proof fn lemma_returned_hart(hart: HartState, id: int, pc: u64, instruction: u32)
    requires
        fit(hart, id),
    ensures
        fit(hart.mret_spec(pc, instruction).0, id),
        fit(hart.sret_spec(pc, instruction).0, id),
{
    lemma_status_entries(hart.csrs.mstatus, 0);
}

/// Writing a register.
pub proof fn lemma_register_written(hart: HartState, register: int, value: u64)
    requires
        0 <= register < 32,
    ensures
        steady(hart, hart.write_register(register, value)),
{
}

proof fn lemma_float_written(hart: HartState, register: int)
    ensures
        forall|value: u32| steady(hart, #[trigger] hart.write_f32(register, value)),
        forall|value: u64| steady(hart, #[trigger] hart.write_f64(register, value)),
{
}

pub proof fn lemma_float_ends(hart: HartState, flags: u8)
    ensures
        steady(hart, hart.dirty_float()),
        steady(hart, (HartState { csrs: hart.csrs.with_float_flags(flags), ..hart })),
{
    if codec::csrs_valid(hart.csrs) {
        lemma_float_csrs(hart.csrs, flags);
    }
}

proof fn lemma_finished(hart: HartState, rd: int)
    ensures
        forall|result: (u32, u8)| steady(hart, #[trigger] hart.finished32(rd, result)),
        forall|result: (u64, u8)| steady(hart, #[trigger] hart.finished64(rd, result)),
{
    assert forall|result: (u32, u8)| steady(hart, #[trigger] hart.finished32(rd, result)) by {
        let written = hart.write_f32(rd, floating::canonical32(result.0));
        lemma_float_ends(written, floating::status_flags(result.1));
    }
    assert forall|result: (u64, u8)| steady(hart, #[trigger] hart.finished64(rd, result)) by {
        let written = hart.write_f64(rd, floating::canonical64(result.0));
        lemma_float_ends(written, floating::status_flags(result.1));
    }
}

pub proof fn lemma_rounded_op(
    hart: HartState,
    rd: int,
    rs1: int,
    rs2: int,
    funct7: u32,
    rounding: Rounding,
)
    requires
        0 <= rd < 32,
    ensures
        hart.rounded_op_spec(rd, rs1, rs2, funct7, rounding) matches Some(after) ==> steady(
            hart,
            after,
        ),
{
    reveal(HartState::rounded_op_spec);
    lemma_finished(hart, rd);
    assert forall|value: u64, flags: u8| steady(
        hart,
        #[trigger] flagged(hart.write_register(rd, value), flags),
    ) by {
        lemma_float_ends(hart.write_register(rd, value), flags);
    }
    if funct7 == 0x60 {
        let (value, status) = floating::to_integer32_spec(hart.cpu.get_f32(rs1), rs2, rounding);
        assert(steady(
            hart,
            flagged(hart.write_register(rd, value), floating::status_flags(status)),
        ));
    } else if funct7 == 0x61 {
        let (value, status) = floating::to_integer64_spec(hart.cpu.get_f64(rs1), rs2, rounding);
        assert(steady(
            hart,
            flagged(hart.write_register(rd, value), floating::status_flags(status)),
        ));
    }
}

/// A hart with floating-point flags accrued.
spec fn flagged(hart: HartState, flags: u8) -> HartState {
    HartState { csrs: hart.csrs.with_float_flags(flags), ..hart }
}

pub proof fn lemma_exact_op(
    hart: HartState,
    rd: int,
    rs1: int,
    rs2: int,
    funct3: u32,
    funct7: u32,
)
    requires
        0 <= rd < 32,
    ensures
        hart.exact_op_spec(rd, rs1, rs2, funct3, funct7) matches Some(after) ==> steady(
            hart,
            after,
        ),
{
    reveal(HartState::exact_op_spec);
    assert forall|value: u64, flags: u8| steady(
        hart,
        #[trigger] flagged(hart.write_register(rd, value), flags),
    ) by {
        lemma_float_ends(hart.write_register(rd, value), flags);
    }
    assert forall|value: u64| steady(
        hart,
        (#[trigger] hart.write_register(rd, value)).dirty_float(),
    ) by {
        lemma_float_ends(hart.write_register(rd, value), 0);
    }
    assert forall|signaling: bool, value: u32| steady(
        hart,
        (#[trigger] hart.noted(signaling).write_f32(rd, value)).dirty_float(),
    ) by {
        lemma_float_ends(hart, isa::FFLAGS_NV);
        lemma_float_ends(hart.noted(signaling).write_f32(rd, value), 0);
    }
    assert forall|signaling: bool, value: u64| steady(
        hart,
        (#[trigger] hart.noted(signaling).write_f64(rd, value)).dirty_float(),
    ) by {
        lemma_float_ends(hart, isa::FFLAGS_NV);
        lemma_float_ends(hart.noted(signaling).write_f64(rd, value), 0);
    }
    let a32 = hart.cpu.get_f32(rs1);
    let b32 = hart.cpu.get_f32(rs2);
    let a64 = hart.cpu.get_f64(rs1);
    let b64 = hart.cpu.get_f64(rs2);
    let (less32, flags32) = floating::compare32_spec(a32, b32, funct3);
    let (less64, flags64) = floating::compare64_spec(a64, b64, funct3);
    assert(steady(hart, flagged(hart.write_register(rd, crate::alu::flag(less32)), flags32)));
    assert(steady(hart, flagged(hart.write_register(rd, crate::alu::flag(less64)), flags64)));
    assert(hart.noted(false) == hart);
    assert forall|value: u32| steady(
        hart,
        (#[trigger] hart.write_f32(rd, value)).dirty_float(),
    ) by {
        lemma_float_ends(hart.write_f32(rd, value), 0);
    }
    assert forall|value: u64| steady(
        hart,
        (#[trigger] hart.write_f64(rd, value)).dirty_float(),
    ) by {
        lemma_float_ends(hart.write_f64(rd, value), 0);
    }
}

/// Floating-point computation changes registers and flags alone, and nothing
/// when it is refused.
pub proof fn lemma_float_computes(hart: HartState, instruction: u32, pc: u64)
    ensures
        ({
            let r = hart.float_op_spec(
                instruction,
                isa::register_field(instruction, 7),
                isa::register_field(instruction, 15),
                isa::register_field(instruction, 20),
                (instruction >> 12) & 7,
                instruction >> 25,
                pc,
            );
            steady(hart, r.0) && (r.1 is Err ==> r.0 == hart)
        }),
        ({
            let r = hart.fused_spec(instruction, instruction & 0x7f, pc);
            steady(hart, r.0) && (r.1 is Err ==> r.0 == hart)
        }),
{
    reveal(HartState::float_op_spec);
    lemma_fields(instruction, 0, 7, 0);
    let rd = isa::register_field(instruction, 7);
    let rs1 = isa::register_field(instruction, 15);
    let rs2 = isa::register_field(instruction, 20);
    lemma_exact_op(hart, rd, rs1, rs2, (instruction >> 12) & 7, instruction >> 25);
    if let Some(rounding) = floating::rounding_spec(hart.csrs.fcsr, (instruction >> 12) & 7) {
        lemma_rounded_op(hart, rd, rs1, rs2, instruction >> 25, rounding);
    }
    lemma_finished(hart, rd);
}

} // verus!
