//! What an instruction leaves as it was, and that it keeps a machine orderly.

use crate::access::Flow;
use crate::alu;
use crate::atomic;
use crate::codec;
use crate::compressed;
use crate::cpu::Cpu;
use crate::devices::DevicesView;
use crate::hart::{ControlPhase, HartControl, HartState, TranslationCache, TranslationContext};
use crate::isa;
use crate::isa::{AccessType, MachineTrap, Privilege, GUEST_PAGE_MASK, INTERRUPT_SUPPORTED};
use crate::machine::{MachineMetrics, MachineView};
use crate::mmu;
use crate::orderly;
use crate::platform::MAX_HARTS;
use crate::step;
use crate::zicsr;
use vstd::prelude::*;

verus! {

/// A mailbox that a hart can be started and interrupted from.
pub open spec fn calm(control: HartControl) -> bool {
    &&& control.pending_interrupts & !INTERRUPT_SUPPORTED == 0
    &&& control.phase == ControlPhase::StartPending ==> control.start_address % 2 == 0
}

/// A machine as booting leaves it and as running keeps it: its harts are fit,
/// its mailboxes calm, and a pending request is sound.
#[verifier::opaque]
pub open spec fn orderly_machine(m: MachineView) -> bool {
    &&& 0 <= m.active < m.harts.len() <= MAX_HARTS
    &&& m.controls.len() == m.harts.len()
    &&& crate::machine::admitted_config(m.config)
    &&& m.devices.ram.len() == m.config.ram_bytes
    &&& m.next_id != 0
    &&& m.request_sound()
    &&& forall|i: int| 0 <= i < m.harts.len() ==> orderly::fit(#[trigger] m.harts[i], i)
    &&& forall|i: int| 0 <= i < m.controls.len() ==> calm(#[trigger] m.controls[i])
}

/// The selected hart exists.
pub open spec fn placed(m: MachineView) -> bool {
    0 <= m.active < m.harts.len()
}

/// Topology, mailboxes, order and pending requests are as before.
pub open spec fn held(a: MachineView, b: MachineView) -> bool {
    &&& b.active == a.active
    &&& b.harts.len() == a.harts.len()
    &&& b.controls == a.controls
    &&& b.pending == a.pending
    &&& orderly_machine(a) ==> orderly_machine(b)
}

/// The registers, the program counter and the privilege of the selected hart
/// are as before too.
pub open spec fn same_cpu(a: MachineView, b: MachineView) -> bool {
    held(a, b) && b.hart().cpu == a.hart().cpu
}

/// How an instruction at `pc` leaves the machine: it moves no program counter
/// itself, a fault changes no register and no privilege, and what follows an
/// even place is even.
pub open spec fn settles(m: MachineView, r: (MachineView, Flow), pc: u64) -> bool {
    &&& held(m, r.0)
    &&& r.0.hart().cpu.pc == m.hart().cpu.pc
    &&& m.hart().cpu.wf() ==> r.0.hart().cpu.wf()
    &&& r.1 is Err ==> r.0.hart().cpu == m.hart().cpu
    &&& r.1 matches Ok((next, _)) ==> (pc % 2 == 0 ==> next % 2 == 0)
}

// Changes to one part.

pub proof fn lemma_hart_changed(m: MachineView, hart: HartState)
    requires
        placed(m),
        orderly::fit(m.hart(), m.active) ==> orderly::fit(hart, m.active),
    ensures
        held(m, m.with_hart(hart)),
        m.with_hart(hart).hart() == hart,
{
    reveal(orderly_machine);
    let after = m.with_hart(hart);
    if orderly_machine(m) {
        assert(orderly::fit(m.harts[m.active], m.active));
        assert forall|i: int| 0 <= i < after.harts.len() implies orderly::fit(
            #[trigger] after.harts[i],
            i,
        ) by {
            assert(orderly::fit(m.harts[i], i));
        }
    }
}

pub proof fn lemma_hart_steady(m: MachineView, hart: HartState)
    requires
        placed(m),
        orderly::steady(m.hart(), hart),
    ensures
        held(m, m.with_hart(hart)),
        m.with_hart(hart).hart() == hart,
{
    lemma_hart_changed(m, hart);
}

pub proof fn lemma_devices_changed(m: MachineView, devices: DevicesView)
    requires
        placed(m),
        devices.ram.len() == m.devices.ram.len(),
    ensures
        same_cpu(m, m.with_devices(devices)),
        m.with_devices(devices).hart() == m.hart(),
{
    reveal(orderly_machine);
}

pub proof fn lemma_metrics_changed(m: MachineView, metrics: MachineMetrics)
    requires
        placed(m),
    ensures
        same_cpu(m, m.with_metrics(metrics)),
        m.with_metrics(metrics).hart() == m.hart(),
{
    reveal(orderly_machine);
}

pub proof fn lemma_register_set(m: MachineView, rd: int, value: u64)
    requires
        placed(m),
        0 <= rd < 32,
    ensures
        held(m, m.set_reg(rd, value)),
        m.set_reg(rd, value).hart().cpu == m.hart().cpu.set(rd, value),
        orderly::steady(m.hart(), m.set_reg(rd, value).hart()),
{
    orderly::lemma_register_written(m.hart(), rd, value);
    lemma_hart_steady(m, m.hart().write_register(rd, value));
}

// Memory.

proof fn lemma_leaf(
    m: MachineView,
    address: u64,
    access: AccessType,
    privilege: Privilege,
    context: TranslationContext,
    pte: u64,
    pte_address: u64,
    level: nat,
)
    requires
        placed(m),
    ensures
        ({
            let r = mmu::leaf_spec(
                m,
                address,
                access,
                privilege,
                context,
                pte,
                pte_address,
                level,
            );
            same_cpu(m, r.0) && placed_by(address, access, r.1)
        }),
{
    reveal(mmu::leaf_spec);
    let physical = mmu::leaf_address(pte, address, level);
    let required = mmu::required_bits(access);
    let counted = m.with_metrics(m.metrics.count_entry_write());
    lemma_metrics_changed(m, m.metrics.count_entry_write());
    orderly::lemma_inserted_cache(m.hart(), m.active, address, physical, context);
    lemma_hart_changed(
        m,
        HartState {
            translation_cache: m.hart().translation_cache.insert_spec(address, physical, context),
            ..m.hart()
        },
    );
    if let Some(devices) = counted.devices.store_spec(pte_address, pte | required, 8) {
        let stored = counted.with_devices(devices);
        lemma_devices_changed(counted, devices);
        lemma_hart_changed(
            stored,
            HartState {
                translation_cache: stored.hart().translation_cache.insert_spec(
                    address,
                    physical,
                    context,
                ),
                ..stored.hart()
            },
        );
    }
    orderly::lemma_leaf_offset(pte, address, level);
}

/// A translation keeps the place within the page; a fault names the address and
/// the kind of this access.
pub open spec fn placed_by(
    address: u64,
    access: AccessType,
    r: Result<u64, MachineTrap>,
) -> bool {
    match r {
        Ok(physical) => physical & GUEST_PAGE_MASK == address & GUEST_PAGE_MASK,
        Err(trap) => trap == access.page_fault_spec(address) || trap == access.access_fault_spec(
            address,
            8,
        ),
    }
}

proof fn lemma_walk(
    m: MachineView,
    address: u64,
    access: AccessType,
    privilege: Privilege,
    context: TranslationContext,
    table: u64,
    remaining: nat,
)
    requires
        placed(m),
    ensures
        ({
            let r = mmu::walk_spec(m, address, access, privilege, context, table, remaining);
            same_cpu(m, r.0) && placed_by(address, access, r.1)
        }),
    decreases remaining,
{
    if remaining > 0 {
        let level = (remaining - 1) as nat;
        let place = table + mmu::table_index(address, level) * 8;
        let counted = m.with_metrics(m.metrics.count_entry_read());
        lemma_metrics_changed(m, m.metrics.count_entry_read());
        if place <= u64::MAX {
            if let Some(pte) = counted.devices.load_spec(place as u64, 8) {
                lemma_walk(
                    counted,
                    address,
                    access,
                    privilege,
                    context,
                    ((pte >> 10) & isa::PTE_PPN_MASK) << 12,
                    level,
                );
                lemma_leaf(
                    counted,
                    address,
                    access,
                    privilege,
                    context,
                    pte,
                    place as u64,
                    level,
                );
            }
        }
    }
}

pub proof fn lemma_translate(m: MachineView, address: u64, access: AccessType)
    requires
        placed(m),
    ensures
        same_cpu(m, mmu::translate_spec(m, address, access).0),
        m.hart().translation_cache.names_pages() ==> placed_by(
            address,
            access,
            mmu::translate_spec(m, address, access).1,
        ),
{
    reveal(mmu::translate_spec);
    let counted = m.with_metrics(m.metrics.count_translation(access));
    lemma_metrics_changed(m, m.metrics.count_translation(access));
    lemma_metrics_changed(counted, counted.metrics.count_hit());
    lemma_metrics_changed(counted, counted.metrics.count_walk());
    let hart = m.hart();
    let privilege = mmu::effective_privilege(hart, access);
    let context = mmu::context_of(hart, access, privilege);
    orderly::lemma_found_offset(hart.translation_cache, address, context);
    lemma_walk(
        counted.with_metrics(counted.metrics.count_walk()),
        address,
        access,
        privilege,
        context,
        (hart.csrs.satp & isa::SATP_PPN_MASK) << 12,
        3,
    );
}

/// Translation keeps the place within a page and asks for a canonical address,
/// except where there is none; a refusal names the address and the kind of the
/// access.
pub proof fn translation_keeps_the_page_offset(m: MachineView, address: u64, access: AccessType)
    requires
        placed(m),
        m.hart().translation_cache.names_pages(),
    ensures
        mmu::keeps_offset(m, address, access, mmu::translate_spec(m, address, access).1),
{
    lemma_translate(m, address, access);
    reveal(mmu::translate_spec);
}

proof fn lemma_device_read(m: MachineView, address: u64, bytes: u8)
    requires
        placed(m),
    ensures
        same_cpu(m, m.read_device_spec(address, bytes).0),
        same_cpu(m, m.with_devices(m.devices.read_spec(address, bytes).0)),
{
    lemma_devices_changed(m, m.devices.read_spec(address, bytes).0);
}

proof fn lemma_device_written(m: MachineView, address: u64, value: u64, bytes: u8)
    requires
        placed(m),
    ensures
        same_cpu(m, m.write_device_spec(address, value, bytes).0),
        same_cpu(m, m.with_devices(m.devices.write_spec(address, value, bytes).0)),
{
    lemma_devices_changed(m, m.devices.write_spec(address, value, bytes).0);
    lemma_devices_changed(m, DevicesView { mtime: value, ..m.devices });
    lemma_hart_steady(m, HartState { msip: value & 1 != 0, ..m.hart() });
    lemma_hart_steady(m, HartState { timer_deadline: value, ..m.hart() });
}

proof fn lemma_invalidated(m: MachineView, address: u64, bytes: u8)
    requires
        placed(m),
    ensures
        same_cpu(m, mmu::invalidated(m, address, bytes)),
{
    reveal(mmu::invalidated);
    reveal(orderly_machine);
    let after = mmu::invalidated(m, address, bytes);
    if orderly_machine(m) {
        assert forall|i: int| 0 <= i < after.harts.len() implies orderly::fit(
            #[trigger] after.harts[i],
            i,
        ) by {
            assert(orderly::fit(m.harts[i], i));
        }
    }
}

proof fn lemma_load(m: MachineView, address: u64, bytes: u8, clint: bool)
    requires
        placed(m),
    ensures
        same_cpu(m, mmu::load_spec(m, address, bytes, clint).0),
{
    reveal(mmu::load_spec);
    lemma_translate(m, address, AccessType::Load);
    let (translated, place) = mmu::translate_spec(m, address, AccessType::Load);
    if let Ok(physical) = place {
        lemma_device_read(translated, physical, bytes);
    }
}

proof fn lemma_store(m: MachineView, address: u64, value: u64, bytes: u8, clint: bool)
    requires
        placed(m),
    ensures
        same_cpu(m, mmu::store_spec(m, address, value, bytes, clint).0),
{
    reveal(mmu::store_spec);
    lemma_translate(m, address, AccessType::Store);
    let (translated, place) = mmu::translate_spec(m, address, AccessType::Store);
    if let Ok(physical) = place {
        lemma_invalidated(translated, physical, bytes);
        lemma_device_written(
            mmu::invalidated(translated, physical, bytes),
            physical,
            value,
            bytes,
        );
    }
}

// Instructions.

/// No integer register but `rd` changed.
pub open spec fn spares(a: Cpu, b: Cpu, rd: int) -> bool {
    forall|i: int| 0 <= i < 32 && i != rd ==> b.registers@[i] == a.registers@[i]
}

/// At most one integer register changed, and not register zero; the program
/// counter and the privilege are as before.
pub open spec fn slight(a: Cpu, b: Cpu) -> bool {
    &&& b.pc == a.pc
    &&& b.privilege == a.privilege
    &&& b.registers@[0] == a.registers@[0]
    &&& exists|rd: int| spares(a, b, rd)
}

/// How an ordinary instruction leaves the machine.
pub open spec fn acts(m: MachineView, r: (MachineView, Flow)) -> bool {
    &&& held(m, r.0)
    &&& slight(m.hart().cpu, r.0.hart().cpu)
    &&& r.1 is Err ==> r.0.hart().cpu == m.hart().cpu
}

proof fn lemma_unchanged(m: MachineView, next: u64, pc: u64, instruction: u32)
    ensures
        acts(m, m.goes_on(next)),
        acts(m, m.refuses(pc, instruction)),
        acts(m, m.jumps(next)),
        m.jumps(next).1 matches Ok((target, _)) ==> target % 2 == 0,
{
    assert(spares(m.hart().cpu, m.hart().cpu, 0));
}

/// Registers written on a machine whose processor is as before.
proof fn lemma_computes(m: MachineView, read: MachineView, rd: int)
    requires
        placed(m),
        same_cpu(m, read),
        0 <= rd < 32,
    ensures
        forall|value: u64, next: u64| acts(m, #[trigger] read.computes(rd, value, next)),
        forall|value: u64, next: u64| acts(m, #[trigger] read.links(next, rd, value)),
{
    assert forall|value: u64, next: u64| acts(m, #[trigger] read.computes(rd, value, next)) by {
        lemma_register_set(read, rd, value);
        assert(spares(m.hart().cpu, read.set_reg(rd, value).hart().cpu, rd));
    }
    assert forall|value: u64, next: u64| acts(m, #[trigger] read.links(next, rd, value)) by {
        assert(acts(m, read.computes(rd, value, next)));
        assert(spares(m.hart().cpu, read.hart().cpu, 0));
    }
}

/// A load or a store that ended with this machine, and went on at `next`.
proof fn lemma_accessed(m: MachineView, read: MachineView)
    requires
        same_cpu(m, read),
    ensures
        forall|flow: Flow| #[trigger] acts(m, (read, flow)),
{
    assert(spares(m.hart().cpu, read.hart().cpu, 0));
}

proof fn lemma_loads(m: MachineView, rd: int, address: u64, bytes: u8, next: u64)
    requires
        placed(m),
        0 <= rd < 32,
    ensures
        acts(m, m.loads(rd, address, bytes, next)),
        m.loads(rd, address, bytes, next).1 matches Ok((target, _)) ==> target == next,
{
    lemma_load(m, address, bytes, true);
    let read = mmu::load_spec(m, address, bytes, true).0;
    lemma_computes(m, read, rd);
    lemma_accessed(m, read);
    if let Err(trap) = mmu::load_spec(m, address, bytes, true).1 {
        let flow: Flow = Err(trap);
        assert(acts(m, (read, flow)));
    }
}

proof fn lemma_stores(m: MachineView, address: u64, value: u64, bytes: u8, next: u64)
    requires
        placed(m),
    ensures
        acts(m, m.stores(address, value, bytes, next)),
        m.stores(address, value, bytes, next).1 matches Ok((target, _)) ==> target == next,
{
    lemma_store(m, address, value, bytes, true);
    let written = mmu::store_spec(m, address, value, bytes, true).0;
    lemma_accessed(m, written);
    assert(acts(m, (written, m.stores(address, value, bytes, next).1)));
}

proof fn lemma_float_loads(
    m: MachineView,
    rd: int,
    address: u64,
    bytes: u8,
    clint: bool,
    next: u64,
)
    requires
        placed(m),
    ensures
        acts(m, m.float_loads(rd, address, bytes, clint, next)),
        m.float_loads(rd, address, bytes, clint, next).1 matches Ok((target, _)) ==> target
            == next,
{
    lemma_load(m, address, bytes, clint);
    let (read, result) = mmu::load_spec(m, address, bytes, clint);
    lemma_accessed(m, read);
    match result {
        Ok(value) => {
            let written = if bytes == 4 {
                read.hart().write_f32(rd, value as u32)
            } else {
                read.hart().write_f64(rd, value)
            };
            orderly::lemma_float_ends(written, 0);
            lemma_hart_steady(read, written.dirty_float());
            assert(spares(m.hart().cpu, written.dirty_float().cpu, 0));
        },
        Err(trap) => {
            let flow: Flow = Err(trap);
            assert(acts(m, (read, flow)));
        },
    }
}

proof fn lemma_float_stores(
    m: MachineView,
    address: u64,
    rs2: int,
    bytes: u8,
    clint: bool,
    next: u64,
)
    requires
        placed(m),
    ensures
        acts(m, m.float_stores(address, rs2, bytes, clint, next)),
        m.float_stores(address, rs2, bytes, clint, next).1 matches Ok((target, _)) ==> target
            == next,
{
    let register = m.hart().cpu.get_f64(rs2);
    let value = if bytes == 4 {
        register & 0xffff_ffff
    } else {
        register
    };
    lemma_store(m, address, value, bytes, clint);
    let (written, result) = mmu::store_spec(m, address, value, bytes, clint);
    lemma_accessed(m, written);
    match result {
        Ok(halt) => {
            orderly::lemma_float_ends(written.hart(), 0);
            lemma_hart_steady(written, written.hart().dirty_float());
            assert(spares(m.hart().cpu, written.hart().dirty_float().cpu, 0));
        },
        Err(trap) => {
            let flow: Flow = Err(trap);
            assert(acts(m, (written, flow)));
        },
    }
}

/// What follows an even place by two or four is even.
pub open spec fn leads(r: (MachineView, Flow), pc: u64) -> bool {
    r.1 matches Ok((next, _)) ==> (pc % 2 == 0 ==> next % 2 == 0)
}

proof fn lemma_quadrant0(m: MachineView, instruction: u16, pc: u64)
    requires
        placed(m),
    ensures
        acts(m, compressed::quadrant0_spec(m, instruction, pc)),
        leads(compressed::quadrant0_spec(m, instruction, pc), pc),
{
    reveal(compressed::quadrant0_spec);
    orderly::lemma_fields(0, instruction, 0, 2);
    orderly::lemma_fields(0, instruction, 0, 7);
    let rd = compressed::short_register(instruction, 2);
    let base = m.reg(compressed::short_register(instruction, 7));
    let next = pc.wrapping_add(2);
    let word = base.wrapping_add(compressed::word_imm(instruction));
    let double = base.wrapping_add(compressed::double_imm(instruction));
    lemma_unchanged(m, next, pc, instruction as u32);
    lemma_computes(m, m, rd);
    lemma_float_loads(m, rd, double, 8, true, next);
    lemma_loads(m, rd, word, 4, next);
    lemma_loads(m, rd, double, 8, next);
    lemma_float_stores(m, double, rd, 8, true, next);
    lemma_stores(m, word, m.reg(rd), 4, next);
    lemma_stores(m, double, m.reg(rd), 8, next);
}

proof fn lemma_quadrant1(m: MachineView, instruction: u16, pc: u64)
    requires
        placed(m),
    ensures
        acts(m, compressed::quadrant1_spec(m, instruction, pc)),
        leads(compressed::quadrant1_spec(m, instruction, pc), pc),
{
    reveal(compressed::quadrant1_spec);
    reveal(compressed::arithmetic_spec);
    orderly::lemma_fields(0, instruction, 0, 7);
    let next = pc.wrapping_add(2);
    lemma_unchanged(m, next, pc, instruction as u32);
    lemma_unchanged(m, pc.wrapping_add(compressed::jump_imm(instruction)), pc, 0);
    lemma_unchanged(m, pc.wrapping_add(compressed::branch_imm(instruction)), pc, 0);
    lemma_computes(m, m, compressed::full_register(instruction, 7));
    lemma_computes(m, m, compressed::short_register(instruction, 7));
    lemma_computes(m, m, 2);
}

proof fn lemma_quadrant2(m: MachineView, instruction: u16, pc: u64)
    requires
        placed(m),
    ensures
        acts(m, compressed::quadrant2_spec(m, instruction, pc)),
        leads(compressed::quadrant2_spec(m, instruction, pc), pc),
{
    reveal(compressed::quadrant2_spec);
    reveal(compressed::register_group_spec);
    orderly::lemma_fields(0, instruction, 0, 7);
    orderly::lemma_fields(0, instruction, 0, 2);
    let rd = compressed::full_register(instruction, 7);
    let rs2 = compressed::full_register(instruction, 2);
    let next = pc.wrapping_add(2);
    let stack = m.reg(2);
    lemma_unchanged(m, next, pc, instruction as u32);
    lemma_unchanged(m, m.reg(rd) & !1u64, pc, 0);
    lemma_computes(m, m, rd);
    lemma_computes(m, m, 1);
    lemma_accessed(m, m);
    let broken: Flow = Err(MachineTrap::Breakpoint { pc });
    assert(acts(m, (m, broken)));
    lemma_float_loads(
        m,
        rd,
        stack.wrapping_add(compressed::double_sp_imm(instruction)),
        8,
        true,
        next,
    );
    lemma_loads(m, rd, stack.wrapping_add(compressed::word_sp_imm(instruction)), 4, next);
    lemma_loads(m, rd, stack.wrapping_add(compressed::double_sp_imm(instruction)), 8, next);
    lemma_float_stores(
        m,
        stack.wrapping_add(compressed::double_store_sp_imm(instruction)),
        rs2,
        8,
        true,
        next,
    );
    lemma_stores(
        m,
        stack.wrapping_add(compressed::word_store_sp_imm(instruction)),
        m.reg(rs2),
        4,
        next,
    );
    lemma_stores(
        m,
        stack.wrapping_add(compressed::double_store_sp_imm(instruction)),
        m.reg(rs2),
        8,
        next,
    );
}

proof fn lemma_compressed(m: MachineView, instruction: u16, pc: u64)
    requires
        placed(m),
    ensures
        acts(m, compressed::compressed_spec(m, instruction, pc)),
        leads(compressed::compressed_spec(m, instruction, pc), pc),
{
    lemma_quadrant0(m, instruction, pc);
    lemma_quadrant1(m, instruction, pc);
    lemma_quadrant2(m, instruction, pc);
    lemma_unchanged(m, pc, pc, instruction as u32);
}

/// A compressed instruction moves neither the program counter nor the
/// privilege itself. A fault changes no register; otherwise at most one integer
/// register changes, never register zero, and an even place leads to an even
/// one.
pub proof fn compressed_instructions_write_one_register(m: MachineView, instruction: u16, pc: u64)
    requires
        placed(m),
    ensures
        ({
            let (after, flow) = compressed::compressed_spec(m, instruction, pc);
            let was = m.hart().cpu;
            let is = after.hart().cpu;
            &&& is.pc == was.pc
            &&& is.privilege == was.privilege
            &&& flow is Err ==> is.registers == was.registers && is.floating_registers
                == was.floating_registers
            &&& flow matches Ok((next, _)) ==> {
                &&& pc % 2 == 0 ==> next % 2 == 0
                &&& is.registers@[0] == was.registers@[0]
                &&& exists|rd: int| #[trigger] spares(was, is, rd)
            }
        }),
{
    lemma_compressed(m, instruction, pc);
}

proof fn lemma_memory(m: MachineView, instruction: u32, pc: u64)
    requires
        placed(m),
    ensures
        acts(m, step::memory_spec(m, instruction, pc)),
        leads(step::memory_spec(m, instruction, pc), pc),
{
    reveal(step::memory_spec);
    orderly::lemma_fields(instruction, 0, 7, 0);
    orderly::lemma_fields(instruction, 0, 20, 0);
    let rd = isa::register_field(instruction, 7);
    let funct3 = (instruction >> 12) & 7;
    let rs2 = isa::register_field(instruction, 20);
    let base = m.reg(isa::register_field(instruction, 15));
    let next = pc.wrapping_add(4);
    let from = base.wrapping_add(isa::imm_i(instruction));
    let to = base.wrapping_add(isa::imm_s(instruction));
    lemma_unchanged(m, next, pc, instruction);
    if let Some((bytes, _)) = alu::load_form_spec(funct3) {
        lemma_load(m, from, bytes, true);
        let (read, result) = mmu::load_spec(m, from, bytes, true);
        lemma_computes(m, read, rd);
        lemma_accessed(m, read);
        if let Err(trap) = result {
            let flow: Flow = Err(trap);
            assert(acts(m, (read, flow)));
        }
    }
    lemma_stores(m, to, m.reg(rs2), 1, next);
    lemma_stores(m, to, m.reg(rs2), 2, next);
    lemma_stores(m, to, m.reg(rs2), 4, next);
    lemma_stores(m, to, m.reg(rs2), 8, next);
    lemma_float_loads(m, rd, from, 4, false, next);
    lemma_float_loads(m, rd, from, 8, false, next);
    lemma_float_stores(m, to, rs2, 4, false, next);
    lemma_float_stores(m, to, rs2, 8, false, next);
}

proof fn lemma_transfer(m: MachineView, instruction: u32, pc: u64)
    requires
        placed(m),
    ensures
        acts(m, step::transfer_spec(m, instruction, pc)),
        leads(step::transfer_spec(m, instruction, pc), pc),
{
    reveal(step::transfer_spec);
    orderly::lemma_fields(instruction, 0, 7, 0);
    lemma_unchanged(m, pc.wrapping_add(4), pc, instruction);
    lemma_unchanged(m, pc.wrapping_add(isa::imm_b(instruction)), pc, instruction);
    lemma_computes(m, m, isa::register_field(instruction, 7));
}

proof fn lemma_reservation_changed(m: MachineView, reservation: Option<(u64, u8)>)
    requires
        placed(m),
    ensures
        same_cpu(m, m.with_reservation(reservation)),
{
    lemma_hart_steady(m, HartState { reservation, ..m.hart() });
}

proof fn lemma_load_reserved(m: MachineView, address: u64, bytes: u8, rd: int, next: u64)
    requires
        placed(m),
        0 <= rd < 32,
    ensures
        acts(m, atomic::load_reserved_spec(m, address, bytes, rd, next)),
        atomic::load_reserved_spec(m, address, bytes, rd, next).1 matches Ok((target, _))
            ==> target == next,
{
    reveal(atomic::load_reserved_spec);
    lemma_accessed(m, m);
    lemma_translate(m, address, AccessType::Load);
    let (translated, place) = mmu::translate_spec(m, address, AccessType::Load);
    lemma_accessed(m, translated);
    if let Ok(physical) = place {
        lemma_device_read(translated, physical, bytes);
        let read = translated.read_device_spec(physical, bytes).0;
        lemma_accessed(m, read);
        lemma_reservation_changed(read, Some((physical, bytes)));
        lemma_computes(m, read.with_reservation(Some((physical, bytes))), rd);
    }
    let r = atomic::load_reserved_spec(m, address, bytes, rd, next);
    assert(r == (r.0, r.1));
}

proof fn lemma_store_conditional(
    m: MachineView,
    physical: u64,
    address: u64,
    value: u64,
    bytes: u8,
    rd: int,
    next: u64,
)
    requires
        placed(m),
        0 <= rd < 32,
    ensures
        acts(m, atomic::store_conditional_spec(m, physical, address, value, bytes, rd, next)),
        atomic::store_conditional_spec(m, physical, address, value, bytes, rd, next).1 matches Ok(
            (target, _),
        ) ==> target == next,
{
    reveal(atomic::store_conditional_spec);
    lemma_reservation_changed(m, None);
    let released = m.with_reservation(None);
    lemma_computes(m, released, rd);
    lemma_device_written(released, physical, value, bytes);
    let written = released.write_device_spec(physical, value, bytes).0;
    lemma_accessed(m, written);
    lemma_computes(m, written, rd);
    assert(acts(m, written.computes(rd, 0, next)));
    let r = atomic::store_conditional_spec(m, physical, address, value, bytes, rd, next);
    assert(r == (r.0, r.1));
}

proof fn lemma_memory_operation(
    m: MachineView,
    operation: u32,
    physical: u64,
    address: u64,
    rhs: u64,
    bytes: u8,
    rd: int,
    next: u64,
)
    requires
        placed(m),
        0 <= rd < 32,
    ensures
        acts(
            m,
            atomic::memory_operation_spec(m, operation, physical, address, rhs, bytes, rd, next),
        ),
        atomic::memory_operation_spec(
            m,
            operation,
            physical,
            address,
            rhs,
            bytes,
            rd,
            next,
        ).1 matches Ok((target, _)) ==> target == next,
{
    reveal(atomic::memory_operation_spec);
    lemma_invalidated(m, physical, bytes);
    let open = mmu::invalidated(m, physical, bytes);
    lemma_device_read(open, physical, bytes);
    let (read, loaded) = open.read_device_spec(physical, bytes);
    lemma_accessed(m, read);
    if let Ok(old) = loaded {
        let value = alu::amo_spec(operation, old, rhs, bytes)->Some_0;
        lemma_device_written(read, physical, value, bytes);
        let written = read.write_device_spec(physical, value, bytes).0;
        lemma_accessed(m, written);
        lemma_computes(m, written, rd);
        assert(acts(m, written.computes(rd, alu::width_extend_spec(old, bytes), next)));
    }
    let r = atomic::memory_operation_spec(m, operation, physical, address, rhs, bytes, rd, next);
    assert(r == (r.0, r.1));
}

/// An instruction that goes on from a machine whose processor is as before acts
/// on the machine before it.
proof fn lemma_acts_through(m: MachineView, read: MachineView, r: (MachineView, Flow))
    requires
        same_cpu(m, read),
        acts(read, r),
    ensures
        acts(m, r),
{
    let rd = choose|rd: int| spares(read.hart().cpu, r.0.hart().cpu, rd);
    assert(spares(m.hart().cpu, r.0.hart().cpu, rd));
}

proof fn lemma_atomic(m: MachineView, instruction: u32, pc: u64)
    requires
        placed(m),
    ensures
        acts(m, atomic::atomic_spec(m, instruction, pc)),
        leads(atomic::atomic_spec(m, instruction, pc), pc),
{
    reveal(atomic::atomic_spec);
    orderly::lemma_fields(instruction, 0, 7, 0);
    let funct3 = (instruction >> 12) & 7;
    let rd = isa::register_field(instruction, 7);
    let operation = instruction >> 27;
    let address = m.reg(isa::register_field(instruction, 15));
    let rhs = m.reg(isa::register_field(instruction, 20));
    let next = pc.wrapping_add(4);
    let bytes: u8 = if funct3 == 2 {
        4
    } else {
        8
    };
    lemma_unchanged(m, next, pc, instruction);
    lemma_accessed(m, m);
    lemma_load_reserved(m, address, bytes, rd, next);
    lemma_translate(m, address, AccessType::Store);
    let (translated, place) = mmu::translate_spec(m, address, AccessType::Store);
    lemma_accessed(m, translated);
    if let Ok(physical) = place {
        lemma_store_conditional(translated, physical, address, rhs, bytes, rd, next);
        lemma_acts_through(
            m,
            translated,
            atomic::store_conditional_spec(translated, physical, address, rhs, bytes, rd, next),
        );
        lemma_memory_operation(translated, operation, physical, address, rhs, bytes, rd, next);
        lemma_acts_through(
            m,
            translated,
            atomic::memory_operation_spec(
                translated,
                operation,
                physical,
                address,
                rhs,
                bytes,
                rd,
                next,
            ),
        );
    }
    let r = atomic::atomic_spec(m, instruction, pc);
    assert(r == (r.0, r.1));
}

proof fn lemma_float(m: MachineView, instruction: u32, pc: u64)
    requires
        placed(m),
    ensures
        settles(m, step::float_spec(m, instruction, pc), pc),
{
    reveal(step::float_spec);
    orderly::lemma_float_computes(m.hart(), instruction, pc);
    let hart = if instruction & 0x7f == 0x53 {
        m.hart().float_op_spec(
            instruction,
            isa::register_field(instruction, 7),
            isa::register_field(instruction, 15),
            isa::register_field(instruction, 20),
            (instruction >> 12) & 7,
            instruction >> 25,
            pc,
        ).0
    } else {
        m.hart().fused_spec(instruction, instruction & 0x7f, pc).0
    };
    lemma_hart_steady(m, hart);
}

proof fn lemma_flushed(m: MachineView)
    requires
        placed(m),
    ensures
        same_cpu(m, m.flushed()),
{
    TranslationCache::lemma_empty_names_pages();
    let forgetful = HartState { translation_cache: TranslationCache::empty(), ..m.hart() };
    lemma_hart_changed(m, forgetful);
    lemma_metrics_changed(
        m.with_hart(forgetful),
        MachineMetrics {
            translation_cache_flushes: m.metrics.translation_cache_flushes.saturating_add(1),
            ..m.metrics
        },
    );
}

proof fn lemma_csr_written(m: MachineView, csr: isa::Csr, value: u64)
    requires
        placed(m),
    ensures
        same_cpu(m, m.csr_written(csr, value)),
{
    let hart = m.hart();
    let written = HartState { csrs: hart.csrs.set(csr, value), ..hart };
    if codec::csrs_valid(hart.csrs) {
        orderly::lemma_written_csrs(hart.csrs, csr, value);
    }
    lemma_hart_changed(m, written);
    lemma_hart_changed(m, HartState { cycle: value, ..hart });
    lemma_hart_changed(m, HartState { instret: value, ..hart });
    lemma_flushed(m.with_hart(written));
}

proof fn lemma_csr(m: MachineView, instruction: u32, pc: u64)
    requires
        placed(m),
    ensures
        acts(m, zicsr::csr_instruction_spec(m, instruction, pc)),
        leads(zicsr::csr_instruction_spec(m, instruction, pc), pc),
{
    reveal(zicsr::csr_instruction_spec);
    orderly::lemma_fields(instruction, 0, 7, 0);
    let funct3 = (instruction >> 12) & 7;
    let rd = isa::register_field(instruction, 7);
    let rs1 = isa::register_field(instruction, 15);
    let source = if funct3 & 4 == 0 {
        m.reg(rs1)
    } else {
        rs1 as u64
    };
    let operation = funct3 & 3;
    let writes = operation == 1 || rs1 != 0;
    let next = pc.wrapping_add(4);
    lemma_unchanged(m, next, pc, instruction);
    lemma_computes(m, m, rd);
    if let Some(csr) = m.hart().csrs.access_spec(
        (instruction >> 20) as u16,
        m.hart().cpu.privilege,
        writes,
    ) {
        let before = m.csr_spec(csr);
        let value = if operation == 1 {
            source
        } else if operation == 2 {
            before | source
        } else {
            before & !source
        };
        lemma_csr_written(m, csr, value);
        let written = m.csr_written(csr, value);
        lemma_computes(m, written, rd);
        lemma_accessed(m, written);
        assert(acts(m, written.goes_on(next)));
    }
}

proof fn lemma_system(m: MachineView, instruction: u32, pc: u64)
    requires
        placed(m),
    ensures
        settles(m, step::system_spec(m, instruction, pc), pc),
{
    reveal(step::system_spec);
    lemma_csr(m, instruction, pc);
    lemma_unchanged(m, pc.wrapping_add(4), pc, instruction);
    lemma_flushed(m);
    if orderly::fit(m.hart(), m.active) {
        orderly::lemma_returned_hart(m.hart(), m.active, pc, instruction);
    }
    lemma_hart_changed(m, m.hart().sret_spec(pc, instruction).0);
    lemma_hart_changed(m, m.hart().mret_spec(pc, instruction).0);
}

proof fn lemma_word(m: MachineView, instruction: u32, pc: u64)
    requires
        placed(m),
    ensures
        settles(m, step::word_spec(m, instruction, pc), pc),
{
    orderly::lemma_fields(instruction, 0, 7, 0);
    lemma_memory(m, instruction, pc);
    lemma_transfer(m, instruction, pc);
    lemma_atomic(m, instruction, pc);
    lemma_float(m, instruction, pc);
    lemma_system(m, instruction, pc);
    lemma_unchanged(m, pc.wrapping_add(4), pc, instruction);
    lemma_computes(m, m, isa::register_field(instruction, 7));
}

proof fn lemma_fetch(m: MachineView, pc: u64)
    requires
        placed(m),
    ensures
        same_cpu(m, step::fetch_spec(m, pc).0),
{
    reveal(step::fetch_spec);
    lemma_translate(m, pc, AccessType::Instruction);
    let (first, place) = mmu::translate_spec(m, pc, AccessType::Instruction);
    if let Ok(physical) = place {
        lemma_device_read(first, physical, 2);
        let read = first.read_device_spec(physical, 2).0;
        lemma_device_read(read, physical, 4);
        lemma_translate(read, pc.wrapping_add(2), AccessType::Instruction);
        let (second, place) = mmu::translate_spec(
            read,
            pc.wrapping_add(2),
            AccessType::Instruction,
        );
        if let Ok(physical) = place {
            lemma_device_read(second, physical, 2);
        }
    }
}

// Mailboxes and firmware calls.

/// Every hart has a mailbox, and the selected hart exists.
pub open spec fn equipped(m: MachineView) -> bool {
    placed(m) && m.controls.len() == m.harts.len()
}

/// A step may touch mailboxes, but leaves the selected hart's empty if it was.
pub open spec fn steers(a: MachineView, b: MachineView) -> bool {
    &&& b.active == a.active
    &&& b.harts.len() == a.harts.len()
    &&& b.controls.len() == a.controls.len()
    &&& a.hart().cpu.wf() ==> b.hart().cpu.wf()
    &&& a.controls[a.active].quiescent() ==> b.controls[b.active].quiescent()
    &&& orderly_machine(a) ==> orderly_machine(b)
}

proof fn lemma_held_steers(a: MachineView, b: MachineView)
    requires
        held(a, b),
        a.hart().cpu.wf() ==> b.hart().cpu.wf(),
    ensures
        steers(a, b),
{
}

/// Draining a mailbox empties it and keeps the machine orderly.
pub proof fn lemma_control_applied(m: MachineView, id: int)
    requires
        equipped(m),
        0 <= id < m.harts.len(),
    ensures
        steers(m, m.control_applied(id)),
        m.control_applied(id).controls[id].quiescent(),
        m.control_applied(id).pending == m.pending,
        m.control_applied(id).devices == m.devices,
        m.control_applied(id).state == m.state,
{
    reveal(orderly_machine);
    let after = m.control_applied(id);
    let control = m.controls[id];
    if orderly_machine(m) {
        assert(orderly::fit(m.harts[id], id));
        assert(calm(m.controls[id]));
        TranslationCache::lemma_empty_names_pages();
        let started = if control.phase == ControlPhase::StartPending {
            orderly::lemma_started_hart(
                m.harts[id],
                id as usize,
                control.start_address,
                control.start_opaque,
            );
            m.harts[id].started_at(id as usize, control.start_address, control.start_opaque)
        } else {
            m.harts[id]
        };
        orderly::lemma_interrupts_added(started.csrs, control.pending_interrupts);
        assert forall|i: int| 0 <= i < after.harts.len() implies orderly::fit(
            #[trigger] after.harts[i],
            i,
        ) by {
            assert(orderly::fit(m.harts[i], i));
        }
        assert forall|i: int| 0 <= i < after.controls.len() implies calm(
            #[trigger] after.controls[i],
        ) by {
            assert(calm(m.controls[i]));
        }
    }
}

/// Draining an empty mailbox changes nothing.
pub proof fn lemma_drained(m: MachineView, id: int)
    requires
        equipped(m),
        0 <= id < m.harts.len(),
        m.controls[id].quiescent(),
    ensures
        m.control_applied(id) == m,
{
    let csrs = m.harts[id].csrs;
    orderly::lemma_nothing_added(csrs.mip);
    let after = m.control_applied(id);
    assert(after.harts =~= m.harts);
    assert(after.controls =~= m.controls);
}

proof fn lemma_mailbox_written(m: MachineView, id: int, control: HartControl)
    requires
        equipped(m),
        0 <= id < m.harts.len(),
        calm(m.controls[id]) ==> calm(control),
    ensures
        steers(m, m.with_control(id, control).control_applied(id)),
        m.with_control(id, control).control_applied(id).pending == m.pending,
{
    reveal(orderly_machine);
    let noted = m.with_control(id, control);
    if orderly_machine(m) {
        assert(calm(m.controls[id]));
        assert forall|i: int| 0 <= i < noted.controls.len() implies calm(
            #[trigger] noted.controls[i],
        ) by {
            assert(calm(m.controls[i]));
        }
    }
    lemma_control_applied(noted, id);
    if id != m.active {
        assert(noted.control_applied(id).controls[m.active] == m.controls[m.active]);
    }
}

proof fn lemma_mailboxes_written(m: MachineView, ids: Seq<int>, count: nat)
    requires
        equipped(m),
        count <= ids.len(),
        forall|k: int| 0 <= k < ids.len() ==> 0 <= #[trigger] ids[k] < m.harts.len(),
    ensures
        steers(m, m.poked_all(ids, count)),
        steers(m, m.fenced_all(ids, count)),
        m.poked_all(ids, count).pending == m.pending,
        m.fenced_all(ids, count).pending == m.pending,
    decreases count,
{
    if count > 0 {
        lemma_mailboxes_written(m, ids, (count - 1) as nat);
        let id = ids[count - 1];
        let poked = m.poked_all(ids, (count - 1) as nat);
        let fenced = m.fenced_all(ids, (count - 1) as nat);
        orderly::lemma_poke_is_an_interrupt(poked.controls[id].pending_interrupts);
        lemma_mailbox_written(
            poked,
            id,
            HartControl {
                pending_interrupts: poked.controls[id].pending_interrupts | isa::MIP_SSIP,
                ..poked.controls[id]
            },
        );
        lemma_mailbox_written(
            fenced,
            id,
            HartControl {
                fence_generation: fenced.controls[id].fence_generation.wrapping_add(1),
                ..fenced.controls[id]
            },
        );
    }
}

proof fn lemma_started_exist(m: MachineView, upto: nat)
    requires
        equipped(m),
    ensures
        forall|k: int|
            0 <= k < m.started_below(upto).len() ==> 0 <= #[trigger] m.started_below(upto)[k]
                < m.harts.len(),
    decreases upto,
{
    if upto > 0 {
        lemma_started_exist(m, (upto - 1) as nat);
        let front = m.started_below((upto - 1) as nat);
        let all = m.started_below(upto);
        assert forall|k: int| 0 <= k < all.len() implies 0 <= #[trigger] all[k]
            < m.harts.len() by {
            if k < front.len() {
                assert(all[k] == front[k]);
            }
        }
    }
}

proof fn lemma_masked_exist(m: MachineView, mask: u64, base: int, upto: nat)
    requires
        equipped(m),
        upto <= 64,
        forall|bit: int|
            0 <= bit < 64 && #[trigger] crate::sbi::mask_bit(mask, bit) ==> m.started(base + bit),
    ensures
        forall|k: int|
            0 <= k < MachineView::masked_below(mask, base, upto).len() ==> 0
                <= #[trigger] MachineView::masked_below(mask, base, upto)[k] < m.harts.len(),
    decreases upto,
{
    if upto > 0 {
        lemma_masked_exist(m, mask, base, (upto - 1) as nat);
        if crate::sbi::mask_bit(mask, upto - 1) {
            assert(m.started(base + (upto - 1)));
        }
        let front = MachineView::masked_below(mask, base, (upto - 1) as nat);
        let all = MachineView::masked_below(mask, base, upto);
        assert forall|k: int| 0 <= k < all.len() implies 0 <= #[trigger] all[k]
            < m.harts.len() by {
            if k < front.len() {
                assert(all[k] == front[k]);
            }
        }
    }
}

proof fn lemma_selected_exist(m: MachineView, mask: u64, base: u64)
    requires
        equipped(m),
    ensures
        m.selected_spec(mask, base) matches Ok(ids) ==> forall|k: int|
            0 <= k < ids.len() ==> 0 <= #[trigger] ids[k] < m.harts.len(),
{
    lemma_started_exist(m, m.harts.len());
    if m.selected_spec(mask, base) is Ok && base != u64::MAX {
        lemma_masked_exist(m, mask, base as int, 64);
    }
}

/// What a firmware call does to the machine.
pub open spec fn serves(
    m: MachineView,
    r: (MachineView, Result<Option<crate::platform::HaltStatus>, MachineTrap>),
) -> bool {
    &&& steers(m, r.0)
    &&& r.1 is Err ==> same_cpu(m, r.0)
}

proof fn lemma_replied(m: MachineView, after: MachineView, reply: crate::sbi::Reply)
    requires
        equipped(m),
        steers(m, after),
    ensures
        steers(m, after.replied(reply)),
        after.replied(reply).controls == after.controls,
        after.replied(reply).pending == after.pending,
{
    lemma_register_set(after, 10, reply.0);
    lemma_register_set(after.set_reg(10, reply.0), 11, reply.1);
}

proof fn lemma_exchange(
    m: MachineView,
    request: u64,
    request_bytes: u64,
    response: u64,
    response_bytes: u64,
    channel: u64,
    flags: u64,
)
    requires
        equipped(m),
    ensures
        ({
            let (after, reply) = m.exchange_spec(
                request,
                request_bytes,
                response,
                response_bytes,
                channel,
                flags,
            );
            &&& steers(m, after)
            &&& after.controls == m.controls
            &&& reply is Some ==> after == m
        }),
{
    reveal(orderly_machine);
}

proof fn lemma_consoles(m: MachineView, bytes: u64, address: u64, high: u64)
    requires
        equipped(m),
    ensures
        same_cpu(m, m.console_write_spec(bytes, address, high).0),
        same_cpu(m, m.console_read_spec(bytes, address, high).0),
{
    reveal(orderly_machine);
    let written = m.console_write_spec(bytes, address, high).0;
    let read = m.console_read_spec(bytes, address, high).0;
    assert(written == m.with_devices(written.devices));
    assert(read == m.with_devices(read.devices));
    lemma_devices_changed(m, written.devices);
    lemma_devices_changed(m, read.devices);
}

proof fn lemma_hart_started(m: MachineView, id: u64, address: u64, opaque: u64)
    requires
        equipped(m),
    ensures
        steers(m, m.hart_start_spec(id, address, opaque).0),
        m.hart_start_spec(id, address, opaque).0.pending == m.pending,
{
    orderly::lemma_even(address);
    if id < m.harts.len() {
        lemma_mailbox_changed_to_start(m, id as int, address, opaque);
    }
}

proof fn lemma_mailbox_changed_to_start(m: MachineView, id: int, address: u64, opaque: u64)
    requires
        equipped(m),
        0 <= id < m.harts.len(),
    ensures
        address % 2 == 0 ==> steers(
            m,
            m.with_control(id, m.controls[id].start_requested(address, opaque)).control_applied(
                id,
            ),
        ),
        m.with_control(id, m.controls[id].start_requested(address, opaque)).control_applied(
            id,
        ).pending == m.pending,
{
    if address % 2 == 0 {
        lemma_mailbox_written(m, id, m.controls[id].start_requested(address, opaque));
    }
}

proof fn lemma_hart_stopped(m: MachineView)
    requires
        equipped(m),
    ensures
        steers(m, m.lifecycle_set(m.active, crate::hart::HartLifecycle::Stopped)),
{
    reveal(orderly_machine);
    let after = m.lifecycle_set(m.active, crate::hart::HartLifecycle::Stopped);
    if orderly_machine(m) {
        assert forall|i: int| 0 <= i < after.harts.len() implies orderly::fit(
            #[trigger] after.harts[i],
            i,
        ) by {
            assert(orderly::fit(m.harts[i], i));
        }
        assert forall|i: int| 0 <= i < after.controls.len() implies calm(
            #[trigger] after.controls[i],
        ) by {
            assert(calm(m.controls[i]));
        }
    }
}

proof fn lemma_timer_set(m: MachineView, deadline: u64)
    requires
        equipped(m),
    ensures
        same_cpu(m, m.timer_set(deadline)),
{
    let hart = m.hart();
    if codec::csrs_valid(hart.csrs) {
        orderly::lemma_nothing_added(hart.csrs.mip);
        orderly::lemma_interrupts_added(hart.csrs, 0);
    }
    lemma_hart_changed(
        m,
        HartState {
            timer_deadline: deadline,
            csrs: crate::cpu::CsrFile { mip: hart.csrs.mip & !isa::MIP_STIP, ..hart.csrs },
            ..hart
        },
    );
}

#[verifier::rlimit(40)]
proof fn lemma_firmware(m: MachineView)
    requires
        equipped(m),
    ensures
        serves(m, m.sbi_spec()),
{
    let function = m.reg(16);
    let a0 = m.reg(10);
    let a1 = m.reg(11);
    let a2 = m.reg(12);
    lemma_held_steers(m, m);
    assert forall|reply: crate::sbi::Reply| steers(m, #[trigger] m.replied(reply)) && m.replied(
        reply,
    ).controls == m.controls && m.replied(reply).pending == m.pending by {
        lemma_replied(m, m, reply);
    }
    lemma_timer_set(m, a0);
    lemma_replied(m, m.timer_set(a0), (crate::platform::SBI_SUCCESS, 0));
    lemma_selected_exist(m, a0, a1);
    if let Ok(ids) = m.selected_spec(a0, a1) {
        lemma_mailboxes_written(m, ids, ids.len());
    }
    lemma_replied(m, m.send_ipi_spec(a0, a1).0, m.send_ipi_spec(a0, a1).1);
    lemma_replied(
        m,
        m.remote_fence_spec(function, a0, a1).0,
        m.remote_fence_spec(function, a0, a1).1,
    );
    lemma_hart_started(m, a0, a1, a2);
    lemma_replied(m, m.hart_start_spec(a0, a1, a2).0, m.hart_start_spec(a0, a1, a2).1);
    lemma_hart_stopped(m);
    lemma_consoles(m, a0, a1, a2);
    lemma_replied(m, m.console_write_spec(a0, a1, a2).0, m.console_write_spec(a0, a1, a2).1);
    lemma_replied(m, m.console_read_spec(a0, a1, a2).0, m.console_read_spec(a0, a1, a2).1);
    let pushed = m.devices.push_spec(a0 as u8).0;
    lemma_devices_changed(m, pushed);
    lemma_replied(m, m.with_devices(pushed), (crate::platform::SBI_SUCCESS, 0));
    lemma_exchange(m, a0, a1, a2, m.reg(13), m.reg(14), m.reg(15));
    reveal(MachineView::sbi_spec);
}

// Steps.

/// What a step does to the machine. One that faults changes no register,
/// neither the program counter nor the privilege.
pub open spec fn steps(
    m: MachineView,
    r: (MachineView, Result<step::StepEffect, MachineTrap>),
) -> bool {
    &&& steers(m, r.0)
    &&& r.1 is Err ==> r.0.hart().cpu == m.hart().cpu
}

proof fn lemma_moved(m: MachineView, after: MachineView, next: u64)
    requires
        placed(m),
        steers(m, after),
        orderly_machine(m) ==> next % 2 == 0,
    ensures
        steers(m, after.with_hart(after.hart().jump(next))),
        after.with_hart(after.hart().jump(next)).controls == after.controls,
        after.with_hart(after.hart().jump(next)).pending == after.pending,
{
    let moved = after.hart().jump(next);
    reveal(orderly_machine);
    if orderly_machine(m) {
        lemma_hart_changed(after, moved);
    }
}

proof fn lemma_executed(m: MachineView, fetched: step::Fetched, pc: u64)
    requires
        equipped(m),
        orderly_machine(m) ==> pc % 2 == 0,
    ensures
        steps(m, step::execute_spec(m, fetched, pc)),
{
    match fetched {
        step::Fetched::Half(instruction) => {
            lemma_compressed(m, instruction, pc);
            let executed = compressed::compressed_spec(m, instruction, pc);
            lemma_held_steers(m, executed.0);
            if let Ok((next, _)) = executed.1 {
                lemma_moved(m, executed.0, next);
            }
        },
        step::Fetched::Word(instruction) => {
            if instruction == 0x0000_0073 {
                lemma_firmware(m);
                let served = m.sbi_spec().0;
                lemma_moved(m, served, pc.wrapping_add(4));
                let cause = isa::ecall_cause_spec(m.hart().cpu.privilege);
                if orderly::fit(m.hart(), m.active) {
                    orderly::lemma_excepted_hart(m.hart(), m.active, cause, 0, pc);
                }
                lemma_hart_changed(m, m.hart().excepted(cause, 0, pc));
            } else {
                lemma_word(m, instruction, pc);
                let executed = step::word_spec(m, instruction, pc);
                lemma_held_steers(m, executed.0);
                if let Ok((next, _)) = executed.1 {
                    lemma_moved(m, executed.0, next);
                }
            }
        },
    }
}

pub proof fn lemma_step(m: MachineView)
    requires
        equipped(m),
    ensures
        steps(m, step::step_spec(m)),
{
    reveal(step::step_spec);
    let refreshed = m.hart().refreshed(m.devices.mtime, m.firmware);
    orderly::lemma_refreshed_hart(m.hart(), m.active, m.devices.mtime, m.firmware);
    lemma_hart_changed(m, refreshed);
    let ready = m.with_hart(refreshed);
    match ready.hart().interrupt_spec() {
        Some((cause, delegated)) => {
            if orderly::fit(ready.hart(), ready.active) {
                orderly::lemma_interrupted_hart(ready.hart(), ready.active, cause, delegated);
            }
            lemma_hart_changed(ready, ready.hart().interrupted(cause, delegated));
        },
        None => {
            let pc = ready.hart().cpu.pc;
            let counted = ready.with_metrics(
                MachineMetrics {
                    instruction_fetches: ready.metrics.instruction_fetches.saturating_add(1),
                    ..ready.metrics
                },
            );
            lemma_metrics_changed(ready, counted.metrics);
            if pc & 1 == 0 {
                orderly::lemma_even(pc);
                lemma_fetch(counted, pc);
                let (loaded, fetched) = step::fetch_spec(counted, pc);
                if let Ok(fetched) = fetched {
                    lemma_executed(loaded, fetched, pc);
                }
            }
        },
    }
}

/// A step keeps register zero at zero, and one that faults leaves every
/// register, the program counter and the privilege as they were.
pub proof fn faulting_steps_change_no_register(m: MachineView)
    requires
        equipped(m),
    ensures
        m.hart().cpu.registers@[0] == 0 ==> step::step_spec(m).0.hart().cpu.registers@[0] == 0,
        step::step_spec(m).1 is Err ==> {
            let was = m.hart().cpu;
            let is = step::step_spec(m).0.hart().cpu;
            &&& is.registers == was.registers
            &&& is.floating_registers == was.floating_registers
            &&& is.pc == was.pc
            &&& is.privilege == was.privilege
        },
{
    lemma_step(m);
}

} // verus!
