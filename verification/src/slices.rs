//! Where a slice ends does not change what the guest does.
//!
//! A machine that has handed its console output over runs exactly as one that
//! still holds it, as long as both outputs together stay within the ceiling.

use crate::alu;
use crate::atomic;
use crate::compressed;
use crate::conduct;
use crate::devices::DevicesView;
use crate::hart::TranslationContext;
use crate::hosting;
use crate::isa;
use crate::isa::{AccessType, Privilege};
use crate::machine::{MachineMetrics, MachineView};
use crate::machine_laws;
use crate::mmu;
use crate::run;
use crate::step;
use crate::step::Fetched;
use crate::zicsr;
use vstd::prelude::*;

verus! {

/// The machine with `held` standing before its console output.
pub open spec fn behind(m: MachineView, held: Seq<u8>) -> MachineView {
    m.with_devices(DevicesView { output: held + m.devices.output, ..m.devices })
}

/// Two ends of one operation: the first machine holds `held` before its output,
/// and the results agree.
pub open spec fn alike<T>(a: (MachineView, T), b: (MachineView, T), held: Seq<u8>) -> bool {
    a.0 == behind(b.0, held) && a.1 == b.1
}

/// The console holds its output with `held` before it.
pub open spec fn fitting(m: MachineView, held: Seq<u8>) -> bool {
    held.len() + m.devices.output.len() <= m.devices.limit
}

// Memory.

proof fn lemma_leaf(
    m: MachineView,
    held: Seq<u8>,
    address: u64,
    access: AccessType,
    privilege: Privilege,
    context: TranslationContext,
    pte: u64,
    pte_address: u64,
    level: nat,
)
    ensures
        alike(
            mmu::leaf_spec(
                behind(m, held),
                address,
                access,
                privilege,
                context,
                pte,
                pte_address,
                level,
            ),
            mmu::leaf_spec(m, address, access, privilege, context, pte, pte_address, level),
            held,
        ),
{
    reveal(mmu::leaf_spec);
}

proof fn lemma_walk(
    m: MachineView,
    held: Seq<u8>,
    address: u64,
    access: AccessType,
    privilege: Privilege,
    context: TranslationContext,
    table: u64,
    remaining: nat,
)
    ensures
        alike(
            mmu::walk_spec(
                behind(m, held),
                address,
                access,
                privilege,
                context,
                table,
                remaining,
            ),
            mmu::walk_spec(m, address, access, privilege, context, table, remaining),
            held,
        ),
    decreases remaining,
{
    if remaining > 0 {
        let level = (remaining - 1) as nat;
        let place = table + mmu::table_index(address, level) * 8;
        let counted = m.with_metrics(m.metrics.count_entry_read());
        assert(behind(m, held).with_metrics(m.metrics.count_entry_read()) == behind(
            counted,
            held,
        ));
        if place <= u64::MAX {
            if let Some(pte) = counted.devices.load_spec(place as u64, 8) {
                lemma_walk(
                    counted,
                    held,
                    address,
                    access,
                    privilege,
                    context,
                    ((pte >> 10) & isa::PTE_PPN_MASK) << 12,
                    level,
                );
                lemma_leaf(
                    counted,
                    held,
                    address,
                    access,
                    privilege,
                    context,
                    pte,
                    place as u64,
                    level,
                );
            }
        }
    }
}

proof fn lemma_translate(m: MachineView, held: Seq<u8>, address: u64, access: AccessType)
    ensures
        alike(
            mmu::translate_spec(behind(m, held), address, access),
            mmu::translate_spec(m, address, access),
            held,
        ),
{
    reveal(mmu::translate_spec);
    let counted = m.with_metrics(m.metrics.count_translation(access));
    let walked = counted.with_metrics(counted.metrics.count_walk());
    let hart = m.hart();
    let privilege = mmu::effective_privilege(hart, access);
    lemma_walk(
        walked,
        held,
        address,
        access,
        privilege,
        mmu::context_of(hart, access, privilege),
        (hart.csrs.satp & isa::SATP_PPN_MASK) << 12,
        3,
    );
    let big = behind(m, held);
    let big_counted = big.with_metrics(big.metrics.count_translation(access));
    assert(big_counted.with_metrics(big_counted.metrics.count_walk()) == behind(walked, held));
}

proof fn lemma_device_read(m: MachineView, held: Seq<u8>, address: u64, bytes: u8)
    ensures
        alike(
            behind(m, held).read_device_spec(address, bytes),
            m.read_device_spec(address, bytes),
            held,
        ),
        behind(m, held).devices.read_spec(address, bytes).1 == m.devices.read_spec(
            address,
            bytes,
        ).1,
        behind(m, held).with_devices(behind(m, held).devices.read_spec(address, bytes).0) == behind(
            m.with_devices(m.devices.read_spec(address, bytes).0),
            held,
        ),
{
}

proof fn lemma_device_written(m: MachineView, held: Seq<u8>, address: u64, value: u64, bytes: u8)
    ensures
        fitting(m.write_device_spec(address, value, bytes).0, held) ==> alike(
            behind(m, held).write_device_spec(address, value, bytes),
            m.write_device_spec(address, value, bytes),
            held,
        ),
        held.len() + m.devices.write_spec(address, value, bytes).0.output.len() <= m.devices.limit
            ==> {
            &&& behind(m, held).devices.write_spec(address, value, bytes).1 == m.devices.write_spec(
                address,
                value,
                bytes,
            ).1
            &&& behind(m, held).with_devices(
                behind(m, held).devices.write_spec(address, value, bytes).0,
            ) == behind(
                m.with_devices(m.devices.write_spec(address, value, bytes).0),
                held,
            )
        },
{
    assert(held + m.devices.output.push(value as u8) =~= (held + m.devices.output).push(
        value as u8,
    ));
    lemma_nothing_held(m, held);
}

proof fn lemma_nothing_held(m: MachineView, held: Seq<u8>)
    ensures
        held.len() == 0 ==> behind(m, held) == m,
{
    if held.len() == 0 {
        assert(held + m.devices.output =~= m.devices.output);
    }
}

proof fn lemma_load(m: MachineView, held: Seq<u8>, address: u64, bytes: u8, clint: bool)
    ensures
        alike(
            mmu::load_spec(behind(m, held), address, bytes, clint),
            mmu::load_spec(m, address, bytes, clint),
            held,
        ),
{
    reveal(mmu::load_spec);
    lemma_translate(m, held, address, AccessType::Load);
    let (translated, place) = mmu::translate_spec(m, address, AccessType::Load);
    if let Ok(physical) = place {
        lemma_device_read(translated, held, physical, bytes);
    }
}

proof fn lemma_store(
    m: MachineView,
    held: Seq<u8>,
    address: u64,
    value: u64,
    bytes: u8,
    clint: bool,
)
    ensures
        fitting(mmu::store_spec(m, address, value, bytes, clint).0, held) ==> alike(
            mmu::store_spec(behind(m, held), address, value, bytes, clint),
            mmu::store_spec(m, address, value, bytes, clint),
            held,
        ),
{
    reveal(mmu::store_spec);
    reveal(mmu::invalidated);
    lemma_translate(m, held, address, AccessType::Store);
    let (translated, place) = mmu::translate_spec(m, address, AccessType::Store);
    if let Ok(physical) = place {
        let open = mmu::invalidated(translated, physical, bytes);
        assert(mmu::invalidated(behind(translated, held), physical, bytes) =~= behind(open, held));
        lemma_device_written(open, held, physical, value, bytes);
    }
}

// Instructions.

/// An instruction ends alike, unless it fills the console.
pub open spec fn ends_alike<T>(a: (MachineView, T), b: (MachineView, T), held: Seq<u8>) -> bool {
    fitting(b.0, held) ==> alike(a, b, held)
}

proof fn lemma_ordinary(m: MachineView, held: Seq<u8>)
    ensures
        behind(m, held).hart() == m.hart(),
        forall|rd: int| behind(m, held).reg(rd) == #[trigger] m.reg(rd),
        forall|rd: int, value: u64|
            behind(m, held).set_reg(rd, value) == behind(#[trigger] m.set_reg(rd, value), held),
        forall|rd: int, value: u64, next: u64|
            alike(
                behind(m, held).computes(rd, value, next),
                #[trigger] m.computes(rd, value, next),
                held,
            ),
        forall|rd: int, value: u64, next: u64|
            alike(
                behind(m, held).links(next, rd, value),
                #[trigger] m.links(next, rd, value),
                held,
            ),
        forall|next: u64|
            alike(behind(m, held).jumps(next), #[trigger] m.jumps(next), held),
        forall|next: u64|
            alike(behind(m, held).goes_on(next), #[trigger] m.goes_on(next), held),
        forall|pc: u64, instruction: u32|
            alike(
                behind(m, held).refuses(pc, instruction),
                #[trigger] m.refuses(pc, instruction),
                held,
            ),
{
}

proof fn lemma_accesses(m: MachineView, held: Seq<u8>)
    ensures
        forall|rd: int, address: u64, bytes: u8, next: u64|
            alike(
                behind(m, held).loads(rd, address, bytes, next),
                #[trigger] m.loads(rd, address, bytes, next),
                held,
            ),
        forall|address: u64, value: u64, bytes: u8, next: u64|
            ends_alike(
                behind(m, held).stores(address, value, bytes, next),
                #[trigger] m.stores(address, value, bytes, next),
                held,
            ),
        forall|rd: int, address: u64, bytes: u8, clint: bool, next: u64|
            alike(
                behind(m, held).float_loads(rd, address, bytes, clint, next),
                #[trigger] m.float_loads(rd, address, bytes, clint, next),
                held,
            ),
        forall|address: u64, rs2: int, bytes: u8, clint: bool, next: u64|
            ends_alike(
                behind(m, held).float_stores(address, rs2, bytes, clint, next),
                #[trigger] m.float_stores(address, rs2, bytes, clint, next),
                held,
            ),
{
    assert forall|rd: int, address: u64, bytes: u8, next: u64| alike(
        behind(m, held).loads(rd, address, bytes, next),
        #[trigger] m.loads(rd, address, bytes, next),
        held,
    ) by {
        lemma_load(m, held, address, bytes, true);
    }
    assert forall|address: u64, value: u64, bytes: u8, next: u64| ends_alike(
        behind(m, held).stores(address, value, bytes, next),
        #[trigger] m.stores(address, value, bytes, next),
        held,
    ) by {
        lemma_store(m, held, address, value, bytes, true);
    }
    assert forall|rd: int, address: u64, bytes: u8, clint: bool, next: u64| alike(
        behind(m, held).float_loads(rd, address, bytes, clint, next),
        #[trigger] m.float_loads(rd, address, bytes, clint, next),
        held,
    ) by {
        lemma_load(m, held, address, bytes, clint);
    }
    assert forall|address: u64, rs2: int, bytes: u8, clint: bool, next: u64| ends_alike(
        behind(m, held).float_stores(address, rs2, bytes, clint, next),
        #[trigger] m.float_stores(address, rs2, bytes, clint, next),
        held,
    ) by {
        let register = m.hart().cpu.get_f64(rs2);
        let value = if bytes == 4 {
            register & 0xffff_ffff
        } else {
            register
        };
        lemma_store(m, held, address, value, bytes, clint);
    }
}

proof fn lemma_compressed(m: MachineView, held: Seq<u8>, instruction: u16, pc: u64)
    ensures
        ends_alike(
            compressed::compressed_spec(behind(m, held), instruction, pc),
            compressed::compressed_spec(m, instruction, pc),
            held,
        ),
{
    reveal(compressed::quadrant0_spec);
    reveal(compressed::quadrant1_spec);
    reveal(compressed::quadrant2_spec);
    reveal(compressed::arithmetic_spec);
    reveal(compressed::register_group_spec);
    lemma_ordinary(m, held);
    lemma_accesses(m, held);
}

proof fn lemma_memory(m: MachineView, held: Seq<u8>, instruction: u32, pc: u64)
    ensures
        ends_alike(
            step::memory_spec(behind(m, held), instruction, pc),
            step::memory_spec(m, instruction, pc),
            held,
        ),
{
    reveal(step::memory_spec);
    lemma_ordinary(m, held);
    lemma_accesses(m, held);
    let base = m.reg(isa::register_field(instruction, 15));
    let from = base.wrapping_add(isa::imm_i(instruction));
    if let Some((bytes, _)) = alu::load_form_spec((instruction >> 12) & 7) {
        lemma_load(m, held, from, bytes, true);
        lemma_ordinary(mmu::load_spec(m, from, bytes, true).0, held);
    }
}

proof fn lemma_atomic(m: MachineView, held: Seq<u8>, instruction: u32, pc: u64)
    ensures
        ends_alike(
            atomic::atomic_spec(behind(m, held), instruction, pc),
            atomic::atomic_spec(m, instruction, pc),
            held,
        ),
{
    reveal(atomic::atomic_spec);
    reveal(atomic::load_reserved_spec);
    lemma_ordinary(m, held);
    let funct3 = (instruction >> 12) & 7;
    let rd = isa::register_field(instruction, 7);
    let rs2 = isa::register_field(instruction, 20);
    let operation = instruction >> 27;
    let address = m.reg(isa::register_field(instruction, 15));
    let rhs = m.reg(rs2);
    let next = pc.wrapping_add(4);
    let bytes: u8 = if funct3 == 2 {
        4
    } else {
        8
    };
    lemma_translate(m, held, address, AccessType::Load);
    lemma_translate(m, held, address, AccessType::Store);
    let (loading, place) = mmu::translate_spec(m, address, AccessType::Load);
    if let Ok(physical) = place {
        lemma_device_read(loading, held, physical, bytes);
    }
    let (storing, place) = mmu::translate_spec(m, address, AccessType::Store);
    if let Ok(physical) = place {
        lemma_store_conditional(storing, held, physical, address, rhs, bytes, rd, next);
        lemma_memory_operation(storing, held, operation, physical, address, rhs, bytes, rd, next);
    }
}

proof fn lemma_store_conditional(
    m: MachineView,
    held: Seq<u8>,
    physical: u64,
    address: u64,
    value: u64,
    bytes: u8,
    rd: int,
    next: u64,
)
    ensures
        ends_alike(
            atomic::store_conditional_spec(
                behind(m, held),
                physical,
                address,
                value,
                bytes,
                rd,
                next,
            ),
            atomic::store_conditional_spec(m, physical, address, value, bytes, rd, next),
            held,
        ),
{
    reveal(atomic::store_conditional_spec);
    let released = m.with_reservation(None);
    assert(behind(m, held).with_reservation(None) == behind(released, held));
    lemma_ordinary(released, held);
    lemma_device_written(released, held, physical, value, bytes);
}

proof fn lemma_memory_operation(
    m: MachineView,
    held: Seq<u8>,
    operation: u32,
    physical: u64,
    address: u64,
    rhs: u64,
    bytes: u8,
    rd: int,
    next: u64,
)
    ensures
        ends_alike(
            atomic::memory_operation_spec(
                behind(m, held),
                operation,
                physical,
                address,
                rhs,
                bytes,
                rd,
                next,
            ),
            atomic::memory_operation_spec(m, operation, physical, address, rhs, bytes, rd, next),
            held,
        ),
{
    reveal(atomic::memory_operation_spec);
    reveal(mmu::invalidated);
    let open = mmu::invalidated(m, physical, bytes);
    assert(mmu::invalidated(behind(m, held), physical, bytes) =~= behind(open, held));
    lemma_device_read(open, held, physical, bytes);
    let (read, loaded) = open.read_device_spec(physical, bytes);
    if let Ok(old) = loaded {
        lemma_device_written(
            read,
            held,
            physical,
            alu::amo_spec(operation, old, rhs, bytes)->Some_0,
            bytes,
        );
    }
}

proof fn lemma_transfer(m: MachineView, held: Seq<u8>, instruction: u32, pc: u64)
    ensures
        alike(
            step::transfer_spec(behind(m, held), instruction, pc),
            step::transfer_spec(m, instruction, pc),
            held,
        ),
        alike(
            step::float_spec(behind(m, held), instruction, pc),
            step::float_spec(m, instruction, pc),
            held,
        ),
{
    reveal(step::transfer_spec);
    reveal(step::float_spec);
    lemma_ordinary(m, held);
}

proof fn lemma_system(m: MachineView, held: Seq<u8>, instruction: u32, pc: u64)
    ensures
        alike(
            step::system_spec(behind(m, held), instruction, pc),
            step::system_spec(m, instruction, pc),
            held,
        ),
{
    reveal(step::system_spec);
    reveal(zicsr::csr_instruction_spec);
    lemma_ordinary(m, held);
    assert forall|csr: isa::Csr, value: u64| behind(m, held).csr_written(csr, value) == behind(
        #[trigger] m.csr_written(csr, value),
        held,
    ) by {}
    assert forall|csr: isa::Csr| behind(m, held).csr_spec(csr) == #[trigger] m.csr_spec(csr) by {}
}

proof fn lemma_word(m: MachineView, held: Seq<u8>, instruction: u32, pc: u64)
    ensures
        ends_alike(
            step::word_spec(behind(m, held), instruction, pc),
            step::word_spec(m, instruction, pc),
            held,
        ),
{
    lemma_ordinary(m, held);
    lemma_memory(m, held, instruction, pc);
    lemma_atomic(m, held, instruction, pc);
    lemma_transfer(m, held, instruction, pc);
    lemma_system(m, held, instruction, pc);
}

proof fn lemma_fetch(m: MachineView, held: Seq<u8>, pc: u64)
    ensures
        alike(step::fetch_spec(behind(m, held), pc), step::fetch_spec(m, pc), held),
{
    reveal(step::fetch_spec);
    lemma_translate(m, held, pc, AccessType::Instruction);
    let (first, place) = mmu::translate_spec(m, pc, AccessType::Instruction);
    if let Ok(physical) = place {
        lemma_device_read(first, held, physical, 2);
        let read = first.read_device_spec(physical, 2).0;
        lemma_device_read(read, held, physical, 4);
        let upper = pc.wrapping_add(2);
        lemma_translate(read, held, upper, AccessType::Instruction);
        let (second, place) = mmu::translate_spec(read, upper, AccessType::Instruction);
        if let Ok(physical) = place {
            lemma_device_read(second, held, physical, 2);
        }
    }
}

// Firmware calls.

proof fn lemma_mailbox(m: MachineView, held: Seq<u8>)
    ensures
        forall|id: int|
            behind(m, held).control_applied(id) == behind(#[trigger] m.control_applied(id), held),
        forall|id: int| behind(m, held).poked(id) == behind(#[trigger] m.poked(id), held),
        forall|id: int| behind(m, held).fenced(id) == behind(#[trigger] m.fenced(id), held),
        forall|id: int| behind(m, held).started(id) == #[trigger] m.started(id),
        forall|id: int| behind(m, held).lifecycle_of(id) == #[trigger] m.lifecycle_of(id),
{
}

proof fn lemma_mailboxes(m: MachineView, held: Seq<u8>, ids: Seq<int>, count: nat)
    ensures
        behind(m, held).poked_all(ids, count) == behind(m.poked_all(ids, count), held),
        behind(m, held).fenced_all(ids, count) == behind(m.fenced_all(ids, count), held),
    decreases count,
{
    if count > 0 {
        lemma_mailboxes(m, held, ids, (count - 1) as nat);
        let id = ids[count - 1];
        let poked = m.poked_all(ids, (count - 1) as nat);
        let fenced = m.fenced_all(ids, (count - 1) as nat);
        lemma_mailbox(poked, held);
        lemma_mailbox(fenced, held);
        assert(behind(poked, held).poked(id) == behind(poked.poked(id), held));
        assert(behind(fenced, held).fenced(id) == behind(fenced.fenced(id), held));
    }
}

proof fn lemma_started(m: MachineView, held: Seq<u8>, upto: nat)
    ensures
        behind(m, held).started_below(upto) == m.started_below(upto),
    decreases upto,
{
    if upto > 0 {
        lemma_started(m, held, (upto - 1) as nat);
        lemma_mailbox(m, held);
        assert(behind(m, held).started(upto - 1) == m.started(upto - 1));
    }
}

proof fn lemma_selected(m: MachineView, held: Seq<u8>, mask: u64, base: u64)
    ensures
        behind(m, held).selected_spec(mask, base) == m.selected_spec(mask, base),
{
    lemma_started(m, held, m.harts.len());
    lemma_mailbox(m, held);
    let big = behind(m, held);
    assert((exists|bit: int|
        0 <= bit < 64 && #[trigger] crate::sbi::mask_bit(mask, bit) && !big.started(base + bit))
        == (exists|bit: int|
        0 <= bit < 64 && #[trigger] crate::sbi::mask_bit(mask, bit) && !m.started(base + bit))) by {
        assert forall|bit: int| big.started(base + bit) == #[trigger] m.started(base + bit) by {}
    }
}

proof fn lemma_consoles(m: MachineView, held: Seq<u8>, bytes: u64, address: u64, high: u64)
    ensures
        ends_alike(
            behind(m, held).console_write_spec(bytes, address, high),
            m.console_write_spec(bytes, address, high),
            held,
        ),
        alike(
            behind(m, held).console_read_spec(bytes, address, high),
            m.console_read_spec(bytes, address, high),
            held,
        ),
{
    let big = behind(m, held);
    let a = big.console_write_spec(bytes, address, high);
    let b = m.console_write_spec(bytes, address, high);
    if let Some(start) = crate::devices::ram_offset(
        m.devices.ram.len() as int,
        address,
        bytes as int,
    ) {
        if high == 0 && held.len() > 0 && fitting(b.0, held) {
            let printed = m.devices.ram.subrange(start, start + bytes);
            assert(a.0.devices.output =~= (held + m.devices.output) + printed);
            assert(b.0.devices.output =~= m.devices.output + printed);
            assert((held + m.devices.output) + printed =~= held + (m.devices.output + printed));
        }
    }
    lemma_nothing_held(m, held);
    lemma_nothing_held(b.0, held);
}

proof fn lemma_exchange(m: MachineView, held: Seq<u8>)
    ensures
        alike(
            behind(m, held).exchange_spec(
                m.reg(10),
                m.reg(11),
                m.reg(12),
                m.reg(13),
                m.reg(14),
                m.reg(15),
            ),
            m.exchange_spec(
                m.reg(10),
                m.reg(11),
                m.reg(12),
                m.reg(13),
                m.reg(14),
                m.reg(15),
            ),
            held,
        ),
{
}

proof fn lemma_replied(m: MachineView, held: Seq<u8>)
    ensures
        forall|reply: crate::sbi::Reply|
            behind(m, held).replied(reply) == behind(#[trigger] m.replied(reply), held),
{
}

#[verifier::rlimit(40)]
proof fn lemma_firmware(m: MachineView, held: Seq<u8>)
    ensures
        ends_alike(behind(m, held).sbi_spec(), m.sbi_spec(), held),
{
    let function = m.reg(16);
    let a0 = m.reg(10);
    let a1 = m.reg(11);
    let a2 = m.reg(12);
    lemma_ordinary(m, held);
    lemma_replied(m, held);
    lemma_mailbox(m, held);
    lemma_replied(m.timer_set(a0), held);
    assert(behind(m, held).timer_set(a0) == behind(m.timer_set(a0), held));
    lemma_selected(m, held, a0, a1);
    if let Ok(ids) = m.selected_spec(a0, a1) {
        lemma_mailboxes(m, held, ids, ids.len());
    }
    assert(alike(behind(m, held).send_ipi_spec(a0, a1), m.send_ipi_spec(a0, a1), held));
    lemma_replied(m.send_ipi_spec(a0, a1).0, held);
    assert(alike(
        behind(m, held).remote_fence_spec(function, a0, a1),
        m.remote_fence_spec(function, a0, a1),
        held,
    ));
    lemma_replied(m.remote_fence_spec(function, a0, a1).0, held);
    lemma_hart_start(m, held, a0, a1, a2);
    lemma_replied(m.hart_start_spec(a0, a1, a2).0, held);
    lemma_consoles(m, held, a0, a1, a2);
    lemma_replied(m.console_write_spec(a0, a1, a2).0, held);
    lemma_replied(m.console_read_spec(a0, a1, a2).0, held);
    lemma_replied(m.with_devices(m.devices.push_spec(a0 as u8).0), held);
    assert(held + m.devices.output.push(a0 as u8) =~= (held + m.devices.output).push(a0 as u8));
    lemma_nothing_held(m, held);
    lemma_nothing_held(m.sbi_spec().0, held);
    lemma_exchange(m, held);
    lemma_replied(
        m.exchange_spec(a0, a1, a2, m.reg(13), m.reg(14), m.reg(15)).0,
        held,
    );
    assert(behind(m, held).hart_status_spec(a0) == m.hart_status_spec(a0));
    reveal(MachineView::sbi_spec);
}

proof fn lemma_hart_start(m: MachineView, held: Seq<u8>, id: u64, address: u64, opaque: u64)
    ensures
        alike(
            behind(m, held).hart_start_spec(id, address, opaque),
            m.hart_start_spec(id, address, opaque),
            held,
        ),
{
    lemma_mailbox(m, held);
    let requested = m.with_control(
        id as int,
        m.controls[id as int].start_requested(address, opaque),
    );
    lemma_mailbox(requested, held);
    assert(behind(m, held).started(id as int) == m.started(id as int));
    assert(behind(requested, held).control_applied(id as int) == behind(
        requested.control_applied(id as int),
        held,
    ));
}

// Steps and runs.

proof fn lemma_executed(m: MachineView, held: Seq<u8>, fetched: Fetched, pc: u64)
    ensures
        ends_alike(
            step::execute_spec(behind(m, held), fetched, pc),
            step::execute_spec(m, fetched, pc),
            held,
        ),
{
    match fetched {
        Fetched::Half(instruction) => {
            lemma_compressed(m, held, instruction, pc);
        },
        Fetched::Word(instruction) => {
            lemma_word(m, held, instruction, pc);
            lemma_firmware(m, held);
        },
    }
}

proof fn lemma_step(m: MachineView, held: Seq<u8>)
    ensures
        ends_alike(step::step_spec(behind(m, held)), step::step_spec(m), held),
{
    reveal(step::step_spec);
    let ready = m.with_hart(m.hart().refreshed(m.devices.mtime, m.firmware));
    let big = behind(m, held);
    assert(big.with_hart(big.hart().refreshed(big.devices.mtime, big.firmware)) == behind(
        ready,
        held,
    ));
    let pc = ready.hart().cpu.pc;
    let counted = ready.with_metrics(
        MachineMetrics {
            instruction_fetches: ready.metrics.instruction_fetches.saturating_add(1),
            ..ready.metrics
        },
    );
    assert(behind(ready, held).with_metrics(counted.metrics) == behind(counted, held));
    lemma_fetch(counted, held, pc);
    let (loaded, fetched) = step::fetch_spec(counted, pc);
    if let Ok(fetched) = fetched {
        lemma_executed(loaded, held, fetched, pc);
    }
}

proof fn lemma_turned(m: MachineView, held: Seq<u8>, scheduled: bool)
    requires
        fitting(m.turned(scheduled).0, held),
    ensures
        ({
            let a = behind(m, held).turned(scheduled);
            let b = m.turned(scheduled);
            a.0 == behind(b.0, held) && a.1 == b.1 && a.2 == b.2
        }),
{
    lemma_step(m, held);
    machine_laws::lemma_step_issues(m);
}

proof fn lemma_next_started(m: MachineView, held: Seq<u8>, offset: nat)
    ensures
        behind(m, held).next_started(offset) == m.next_started(offset),
    decreases m.harts.len() + 1 - offset,
{
    if offset <= m.harts.len() {
        lemma_next_started(m, held, offset + 1);
        lemma_mailbox(m, held);
        let id = (m.active + offset) % (m.harts.len() as int);
        assert(behind(m, held).lifecycle_of(id) == m.lifecycle_of(id));
    }
}

proof fn lemma_prepared(m: MachineView, held: Seq<u8>, scheduled: bool)
    ensures
        behind(m, held).prepared(scheduled) == match m.prepared(scheduled) {
            Some(ready) => Some(behind(ready, held)),
            None => None,
        },
{
    lemma_next_started(m, held, 1);
    if scheduled {
        if let Some(chosen) = m.scheduled_spec() {
            lemma_mailbox(chosen, held);
            assert(behind(m, held).scheduled_spec() == Some(behind(chosen, held)));
            assert(behind(chosen, held).control_applied(chosen.active) == behind(
                chosen.control_applied(chosen.active),
                held,
            ));
        }
    }
}

/// A run that still holds earlier output does what one that does not hold it
/// does, unless it fills the console.
proof fn lemma_ran(m: MachineView, held: Seq<u8>, budget: nat, scheduled: bool)
    requires
        fitting(m.ran(budget, scheduled).0, held),
        m.devices.output.len() <= m.devices.limit,
    ensures
        ({
            let a = behind(m, held).ran(budget, scheduled);
            let b = m.ran(budget, scheduled);
            a.0 == behind(b.0, held) && a.1 == b.1 && a.2 == b.2
        }),
    decreases budget,
{
    let big = behind(m, held);
    assert(big.runnable() == m.runnable());
    if budget > 0 && m.runnable() {
        lemma_prepared(m, held, scheduled);
        if let Some(ready) = m.prepared(scheduled) {
            machine_laws::lemma_turn_issues(ready, scheduled);
            let turned = ready.turned(scheduled);
            if turned.1 {
                machine_laws::console_output_only_grows(
                    turned.0,
                    (budget - 1) as nat,
                    scheduled,
                );
            }
            lemma_turned(ready, held, scheduled);
            if turned.1 {
                lemma_ran(ready.turned(scheduled).0, held, (budget - 1) as nat, scheduled);
            }
        }
    }
}

/// Two slices one after the other do what one slice with the sum of their
/// budgets does, print the same and end in the same machine, if what they print
/// together stays within the console's ceiling. Beyond it the guest can tell
/// them apart: the end of the first slice empties the console.
pub proof fn slices_add_up(m: MachineView, first: u64, second: u64, scheduled: bool)
    requires
        conduct::equipped(m),
        first + second <= u64::MAX,
        m.devices.output.len() <= m.devices.limit,
        ({
            let (between, head) = m.slice_spec(first, scheduled);
            let tail = between.slice_spec(second, scheduled).1;
            head.console.len() + tail.console.len() <= m.devices.limit
        }),
    ensures
        ({
            let (whole, report) = m.slice_spec((first + second) as u64, scheduled);
            let (between, head) = m.slice_spec(first, scheduled);
            let (after, tail) = between.slice_spec(second, scheduled);
            &&& after == whole
            &&& tail.outcome == report.outcome
            &&& head.steps_executed + tail.steps_executed == report.steps_executed
            &&& head.instructions_retired + tail.instructions_retired
                == report.instructions_retired
            &&& tail.total_steps_executed == report.total_steps_executed
            &&& tail.total_instructions_retired == report.total_instructions_retired
            &&& head.console + tail.console == report.console
        }),
{
    let drained = m.control_applied(m.active);
    let head = drained.ran(first as nat, scheduled);
    let (between, _) = m.slice_spec(first, scheduled);
    let held = head.0.devices.output;
    conduct::lemma_control_applied(m, m.active);
    hosting::lemma_ran(drained, first as nat, scheduled);
    run::budgets_add_up(drained, first as nat, second as nat, scheduled);
    run::slice_stays_within_its_budget(drained, first as nat, scheduled);
    run::slice_stays_within_its_budget(head.0, second as nat, scheduled);
    run::slice_stays_within_its_budget(drained, (first + second) as nat, scheduled);
    machine_laws::console_output_only_grows(drained, first as nat, scheduled);
    assert(held + Seq::<u8>::empty() =~= held);
    assert(behind(between, held) =~= head.0);
    conduct::lemma_drained(between, between.active);
    machine_laws::console_output_only_grows(between, second as nat, scheduled);
    lemma_ran(between, held, second as nat, scheduled);
    let tail = between.ran(second as nat, scheduled);
    let whole = drained.ran((first + second) as nat, scheduled);
    assert(whole.0 == behind(tail.0, held));
    assert(whole.0.devices.output == held + tail.0.devices.output);
}

} // verus!
