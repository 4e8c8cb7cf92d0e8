//! What holds of every run of the machine.

use crate::atomic;
use crate::boot;
use crate::compressed;
use crate::hart::{HartLifecycle, HartState, TranslationCache, TranslationContext};
use crate::isa;
use crate::isa::{AccessType, Privilege};
use crate::kernel_model;
use crate::machine::{MachineMetrics, MachineView, OutcomeView};
use crate::mmu;
use crate::platform::{
    HostCompletionError, HostRequestFailure, HostRequestId, MachineConfig, DRAM_BASE,
};
use crate::ram;
use crate::step;
use crate::step::Fetched;
use crate::zicsr;
use vstd::prelude::*;

verus! {

/// An instruction leaves the books alone: what the machine was admitted with,
/// how far it has run, whose turn it is, and what it has printed. It may print
/// more, within the ceiling.
pub open spec fn same_books(a: MachineView, b: MachineView) -> bool {
    &&& b.config == a.config
    &&& b.active == a.active
    &&& b.quantum == a.quantum
    &&& b.state == a.state
    &&& b.steps == a.steps
    &&& b.retired == a.retired
    &&& b.firmware == a.firmware
    &&& b.devices.limit == a.devices.limit
    &&& appended(a.devices.output, b.devices.output)
    &&& a.devices.output.len() <= a.devices.limit ==> b.devices.output.len() <= b.devices.limit
}

/// The later output is the earlier one with more behind it.
pub open spec fn appended(earlier: Seq<u8>, later: Seq<u8>) -> bool {
    earlier.len() <= later.len() && forall|i: int|
        0 <= i < earlier.len() ==> #[trigger] later[i] == earlier[i]
}

/// Nothing was asked of the host either.
pub open spec fn undisturbed(a: MachineView, b: MachineView) -> bool {
    same_books(a, b) && b.next_id == a.next_id && b.pending == a.pending
}

/// At most one host request was issued, under the next number, and it still waits
/// for its answer.
pub open spec fn issued(a: MachineView, b: MachineView) -> bool {
    ||| b.next_id == a.next_id && b.pending == a.pending
    ||| {
        &&& a.pending is None
        &&& b.next_id == a.next_id + 1
        &&& b.pending matches Some(pending) && pending.request.id.0 == a.next_id
    }
}

/// A pending request holds a number that was given out.
pub open spec fn numbers_in_order(m: MachineView) -> bool {
    m.pending matches Some(pending) ==> pending.request.id.0 < m.next_id
}

// Memory.

proof fn lemma_walk_undisturbed(
    m: MachineView,
    address: u64,
    access: AccessType,
    privilege: Privilege,
    context: TranslationContext,
    table: u64,
    remaining: nat,
)
    ensures
        undisturbed(
            m,
            mmu::walk_spec(m, address, access, privilege, context, table, remaining).0,
        ),
    decreases remaining,
{
    reveal(mmu::leaf_spec);
    if remaining > 0 {
        let level = (remaining - 1) as nat;
        let place = table + mmu::table_index(address, level) * 8;
        let counted = m.with_metrics(m.metrics.count_entry_read());
        if place <= u64::MAX {
            if let Some(pte) = counted.devices.load_spec(place as u64, 8) {
                lemma_walk_undisturbed(
                    counted,
                    address,
                    access,
                    privilege,
                    context,
                    ((pte >> 10) & isa::PTE_PPN_MASK) << 12,
                    level,
                );
            }
        }
    }
}

proof fn lemma_translate_undisturbed(m: MachineView, address: u64, access: AccessType)
    ensures
        undisturbed(m, mmu::translate_spec(m, address, access).0),
{
    reveal(mmu::translate_spec);
    let counted = m.with_metrics(m.metrics.count_translation(access));
    let hart = m.hart();
    let privilege = mmu::effective_privilege(hart, access);
    lemma_walk_undisturbed(
        counted.with_metrics(counted.metrics.count_walk()),
        address,
        access,
        privilege,
        mmu::context_of(hart, access, privilege),
        (hart.csrs.satp & isa::SATP_PPN_MASK) << 12,
        3,
    );
}

proof fn lemma_load_undisturbed(m: MachineView, address: u64, bytes: u8, clint: bool)
    ensures
        undisturbed(m, mmu::load_spec(m, address, bytes, clint).0),
{
    reveal(mmu::load_spec);
    lemma_translate_undisturbed(m, address, AccessType::Load);
}

proof fn lemma_store_undisturbed(
    m: MachineView,
    address: u64,
    value: u64,
    bytes: u8,
    clint: bool,
)
    ensures
        undisturbed(m, mmu::store_spec(m, address, value, bytes, clint).0),
{
    reveal(mmu::store_spec);
    reveal(mmu::invalidated);
    lemma_translate_undisturbed(m, address, AccessType::Store);
}

/// Loads and stores of every form, wherever they go.
proof fn lemma_accesses_undisturbed(m: MachineView)
    ensures
        forall|rd: int, address: u64, bytes: u8, next: u64|
            undisturbed(m, (#[trigger] m.loads(rd, address, bytes, next)).0),
        forall|address: u64, value: u64, bytes: u8, next: u64|
            undisturbed(m, (#[trigger] m.stores(address, value, bytes, next)).0),
        forall|rd: int, address: u64, bytes: u8, clint: bool, next: u64|
            undisturbed(m, (#[trigger] m.float_loads(rd, address, bytes, clint, next)).0),
        forall|address: u64, rs2: int, bytes: u8, clint: bool, next: u64|
            undisturbed(m, (#[trigger] m.float_stores(address, rs2, bytes, clint, next)).0),
{
    assert forall|address: u64, bytes: u8, clint: bool| undisturbed(
        m,
        (#[trigger] mmu::load_spec(m, address, bytes, clint)).0,
    ) by {
        lemma_load_undisturbed(m, address, bytes, clint);
    }
    assert forall|address: u64, value: u64, bytes: u8, clint: bool| undisturbed(
        m,
        (#[trigger] mmu::store_spec(m, address, value, bytes, clint)).0,
    ) by {
        lemma_store_undisturbed(m, address, value, bytes, clint);
    }
}

// Instructions.

proof fn lemma_atomic_undisturbed(m: MachineView, instruction: u32, pc: u64)
    ensures
        undisturbed(m, atomic::atomic_spec(m, instruction, pc).0),
{
    reveal(atomic::atomic_spec);
    reveal(atomic::load_reserved_spec);
    reveal(atomic::store_conditional_spec);
    reveal(atomic::memory_operation_spec);
    reveal(mmu::invalidated);
    let address = m.reg(isa::register_field(instruction, 15));
    lemma_translate_undisturbed(m, address, AccessType::Load);
    lemma_translate_undisturbed(m, address, AccessType::Store);
}

proof fn lemma_compressed_undisturbed(m: MachineView, instruction: u16, pc: u64)
    ensures
        undisturbed(m, compressed::compressed_spec(m, instruction, pc).0),
{
    reveal(compressed::quadrant0_spec);
    reveal(compressed::quadrant1_spec);
    reveal(compressed::quadrant2_spec);
    reveal(compressed::arithmetic_spec);
    reveal(compressed::register_group_spec);
    lemma_accesses_undisturbed(m);
}

proof fn lemma_memory_undisturbed(m: MachineView, instruction: u32, pc: u64)
    ensures
        undisturbed(m, step::memory_spec(m, instruction, pc).0),
{
    reveal(step::memory_spec);
    lemma_accesses_undisturbed(m);
    let base = m.reg(isa::register_field(instruction, 15));
    let from = base.wrapping_add(isa::imm_i(instruction));
    if let Some((bytes, _)) = crate::alu::load_form_spec((instruction >> 12) & 7) {
        lemma_load_undisturbed(m, from, bytes, true);
    }
}

proof fn lemma_word_undisturbed(m: MachineView, instruction: u32, pc: u64)
    ensures
        undisturbed(m, step::word_spec(m, instruction, pc).0),
{
    reveal(step::transfer_spec);
    reveal(step::float_spec);
    reveal(step::system_spec);
    reveal(zicsr::csr_instruction_spec);
    lemma_memory_undisturbed(m, instruction, pc);
    lemma_atomic_undisturbed(m, instruction, pc);
}

proof fn lemma_fetch_undisturbed(m: MachineView, pc: u64)
    ensures
        undisturbed(m, step::fetch_spec(m, pc).0),
{
    reveal(step::fetch_spec);
    lemma_translate_undisturbed(m, pc, AccessType::Instruction);
    let (first, place) = mmu::translate_spec(m, pc, AccessType::Instruction);
    if let Ok(physical) = place {
        let read = first.read_device_spec(physical, 2).0;
        lemma_translate_undisturbed(read, pc.wrapping_add(2), AccessType::Instruction);
    }
}

// Firmware calls.

proof fn lemma_mailboxes_undisturbed(m: MachineView, ids: Seq<int>, count: nat)
    ensures
        undisturbed(m, m.poked_all(ids, count)),
        undisturbed(m, m.fenced_all(ids, count)),
    decreases count,
{
    if count > 0 {
        lemma_mailboxes_undisturbed(m, ids, (count - 1) as nat);
    }
}

proof fn lemma_interrupts_undisturbed(m: MachineView, mask: u64, base: u64)
    ensures
        undisturbed(m, m.send_ipi_spec(mask, base).0),
{
    if let Ok(ids) = m.selected_spec(mask, base) {
        lemma_mailboxes_undisturbed(m, ids, ids.len());
    }
}

proof fn lemma_fences_undisturbed(m: MachineView, function: u64, mask: u64, base: u64)
    ensures
        undisturbed(m, m.remote_fence_spec(function, mask, base).0),
{
    if let Ok(ids) = m.selected_spec(mask, base) {
        lemma_mailboxes_undisturbed(m, ids, ids.len());
    }
}

proof fn lemma_starts_undisturbed(m: MachineView, id: u64, address: u64, opaque: u64)
    ensures
        undisturbed(m, m.hart_start_spec(id, address, opaque).0),
{
}

proof fn lemma_console_undisturbed(m: MachineView, bytes: u64, address: u64, high: u64)
    ensures
        undisturbed(m, m.console_write_spec(bytes, address, high).0),
        undisturbed(m, m.console_read_spec(bytes, address, high).0),
{
}

proof fn lemma_exchange_issues(m: MachineView)
    ensures
        ({
            let after = m.exchange_spec(
                m.reg(10),
                m.reg(11),
                m.reg(12),
                m.reg(13),
                m.reg(14),
                m.reg(15),
            ).0;
            same_books(m, after) && issued(m, after)
        }),
{
}

#[verifier::rlimit(40)]
proof fn lemma_firmware_issues(m: MachineView)
    ensures
        same_books(m, m.sbi_spec().0),
        issued(m, m.sbi_spec().0),
{
    let a0 = m.reg(10);
    let a1 = m.reg(11);
    let a2 = m.reg(12);
    lemma_interrupts_undisturbed(m, a0, a1);
    lemma_fences_undisturbed(m, m.reg(16), a0, a1);
    lemma_starts_undisturbed(m, a0, a1, a2);
    lemma_console_undisturbed(m, a0, a1, a2);
    lemma_exchange_issues(m);
    reveal(MachineView::sbi_spec);
}

pub proof fn lemma_step_issues(m: MachineView)
    ensures
        same_books(m, step::step_spec(m).0),
        issued(m, step::step_spec(m).0),
{
    reveal(step::step_spec);
    let ready = m.with_hart(m.hart().refreshed(m.devices.mtime, m.firmware));
    let pc = ready.hart().cpu.pc;
    let counted = ready.with_metrics(
        MachineMetrics {
            instruction_fetches: ready.metrics.instruction_fetches.saturating_add(1),
            ..ready.metrics
        },
    );
    lemma_fetch_undisturbed(counted, pc);
    let (loaded, fetched) = step::fetch_spec(counted, pc);
    match fetched {
        Ok(Fetched::Half(instruction)) => {
            lemma_compressed_undisturbed(loaded, instruction, pc);
        },
        Ok(Fetched::Word(instruction)) => {
            lemma_word_undisturbed(loaded, instruction, pc);
            lemma_firmware_issues(loaded);
        },
        Err(_) => {},
    }
}

// Runs.

pub proof fn lemma_turn_issues(m: MachineView, scheduled: bool)
    ensures
        ({
            let (after, charged, retired) = m.turned(scheduled);
            &&& issued(m, after)
            &&& after.config == m.config
            &&& after.steps == if charged {
                m.steps.saturating_add(1)
            } else {
                m.steps
            }
            &&& after.retired == if retired {
                m.retired.saturating_add(1)
            } else {
                m.retired
            }
            &&& retired ==> charged
            &&& !charged ==> after.state is Trapped
            &&& appended(m.devices.output, after.devices.output)
            &&& after.devices.limit == m.devices.limit
            &&& m.devices.output.len() <= m.devices.limit ==> after.devices.output.len()
                <= after.devices.limit
        }),
{
    lemma_step_issues(m);
}

/// Every step is charged to the budget, whether its instruction retires or not;
/// only a fault at the machine's own boundary is not, and it stops the machine.
pub proof fn only_boundary_faults_are_free(m: MachineView, scheduled: bool)
    ensures
        m.turned(scheduled).1 || m.turned(scheduled).0.state is Trapped,
{
    lemma_turn_issues(m, scheduled);
}

/// Guest time advances by one tick for each charged step, on top of whatever
/// the instruction itself wrote to the counter.
pub proof fn time_follows_charged_steps(m: MachineView, scheduled: bool)
    requires
        m.turned(scheduled).1,
    ensures
        m.turned(scheduled).0.devices.mtime == step::step_spec(m).0.devices.mtime.wrapping_add(1),
{
}

/// A run prints behind what was printed before, never over it, and stays within
/// the ceiling on what is retained.
pub proof fn console_output_only_grows(m: MachineView, budget: nat, scheduled: bool)
    requires
        m.devices.output.len() <= m.devices.limit,
    ensures
        ({
            let after = m.ran(budget, scheduled).0;
            &&& appended(m.devices.output, after.devices.output)
            &&& after.devices.output.len() <= after.devices.limit
            &&& after.devices.limit == m.devices.limit
        }),
    decreases budget,
{
    if budget > 0 && m.runnable() {
        if let Some(ready) = m.prepared(scheduled) {
            lemma_turn_issues(ready, scheduled);
            let (after, charged, _) = ready.turned(scheduled);
            if charged {
                console_output_only_grows(after, (budget - 1) as nat, scheduled);
            }
        }
    }
}

/// A slice hands each printed byte over once: its report holds all that is
/// retained, and nothing stays behind.
pub proof fn console_output_is_handed_over_once(m: MachineView, budget: u64, scheduled: bool)
    requires
        m.devices.output.len() == 0,
    ensures
        ({
            let (after, report) = m.slice_spec(budget, scheduled);
            &&& after.devices.output.len() == 0
            &&& report.console.len() <= m.devices.limit
            &&& report.console == m.control_applied(m.active).ran(
                budget as nat,
                scheduled,
            ).0.devices.output
        }),
{
    console_output_only_grows(m.control_applied(m.active), budget as nat, scheduled);
}

/// The totals of a slice's report grow by exactly what the slice reports, until
/// they reach the largest number they can hold; and no guest changes the
/// configuration that its machine was admitted with.
pub proof fn totals_follow_the_reports(m: MachineView, budget: nat, scheduled: bool)
    ensures
        ({
            let (after, steps, retired) = m.ran(budget, scheduled);
            &&& after.steps == kernel_model::smaller(m.steps + steps, u64::MAX as int)
            &&& after.retired == kernel_model::smaller(m.retired + retired, u64::MAX as int)
            &&& after.config == m.config
        }),
    decreases budget,
{
    if budget > 0 && m.runnable() {
        if let Some(ready) = m.prepared(scheduled) {
            lemma_turn_issues(ready, scheduled);
            let (after, charged, _) = ready.turned(scheduled);
            if charged {
                totals_follow_the_reports(after, (budget - 1) as nat, scheduled);
            }
        }
    }
}

/// Host requests are numbered in the order they are issued and no number is
/// given out twice: a slice issues at most one request, under the next number,
/// and then stops.
pub proof fn request_numbers_are_fresh(m: MachineView, budget: nat, scheduled: bool)
    requires
        numbers_in_order(m),
    ensures
        ({
            let after = m.ran(budget, scheduled).0;
            &&& numbers_in_order(after)
            &&& issued(m, after)
        }),
    decreases budget,
{
    if budget > 0 && m.runnable() {
        if let Some(ready) = m.prepared(scheduled) {
            lemma_turn_issues(ready, scheduled);
            let (after, charged, _) = ready.turned(scheduled);
            if charged {
                request_numbers_are_fresh(after, (budget - 1) as nat, scheduled);
            }
        }
    }
}

/// A fresh machine has given no number out.
pub proof fn fresh_machines_have_no_request(config: MachineConfig, hart_count: nat)
    ensures
        numbers_in_order(MachineView::fresh(config, hart_count)),
{
}

/// Answering a request, or giving it up, does not give its number out again.
pub proof fn answered_numbers_stay_used(
    m: MachineView,
    id: HostRequestId,
    response: Seq<u8>,
    failure: HostRequestFailure,
)
    ensures
        m.completed_spec(id, response).0.next_id == m.next_id,
        m.failed_spec(id, failure).0.next_id == m.next_id,
{
}

/// Under a fixed hart that is not started, a slice yields without a step.
pub proof fn stopped_harts_yield(m: MachineView, budget: nat)
    requires
        m.runnable(),
        m.hart().lifecycle != HartLifecycle::Started,
    ensures
        m.ran(budget, false) == (m, 0nat, 0nat),
        m.outcome() == OutcomeView::Yielded,
{
}

/// A machine whose harts are all stopped yields without a step.
pub proof fn idle_machines_yield(m: MachineView, budget: nat)
    requires
        m.runnable(),
        0 <= m.active < m.harts.len(),
        m.hart().lifecycle != HartLifecycle::Started,
        forall|id: int|
            0 <= id < m.harts.len() ==> #[trigger] m.lifecycle_of(id) != Some(
                HartLifecycle::Started,
            ),
    ensures
        m.ran(budget, true) == (m, 0nat, 0nat),
{
    lemma_none_started(m, 1);
}

proof fn lemma_none_started(m: MachineView, offset: nat)
    requires
        m.harts.len() > 0,
        forall|id: int|
            0 <= id < m.harts.len() ==> #[trigger] m.lifecycle_of(id) != Some(
                HartLifecycle::Started,
            ),
    ensures
        m.next_started(offset) is None,
    decreases m.harts.len() + 1 - offset,
{
    if offset <= m.harts.len() {
        lemma_none_started(m, offset + 1);
        assert(0 <= (m.active + offset) % (m.harts.len() as int) < m.harts.len());
    }
}

/// The scheduler picks a started hart whenever there is one.
pub proof fn started_harts_are_scheduled(m: MachineView, id: int)
    requires
        0 <= m.active < m.harts.len(),
        0 <= id < m.harts.len(),
        m.lifecycle_of(id) == Some(HartLifecycle::Started),
    ensures
        m.scheduled_spec() matches Some(chosen) && 0 <= chosen.active < m.harts.len() && (
        chosen.active == m.active && m.hart().lifecycle == HartLifecycle::Started
            || m.lifecycle_of(chosen.active) == Some(HartLifecycle::Started)),
{
    let count = m.harts.len() as int;
    let distance = if id > m.active {
        id - m.active
    } else {
        id - m.active + count
    };
    assert((m.active + distance) % count == id) by {
        if id > m.active {
            vstd::arithmetic::div_mod::lemma_small_mod(id as nat, count as nat);
        } else {
            vstd::arithmetic::div_mod::lemma_mod_add_multiples_vanish(id, count);
            vstd::arithmetic::div_mod::lemma_small_mod(id as nat, count as nat);
        }
    }
    lemma_some_started(m, 1, distance as nat);
}

proof fn lemma_some_started(m: MachineView, offset: nat, distance: nat)
    requires
        offset <= distance <= m.harts.len(),
        m.harts.len() > 0,
        m.lifecycle_of((m.active + distance) % (m.harts.len() as int)) == Some(
            HartLifecycle::Started,
        ),
    ensures
        m.next_started(offset) matches Some(id) && 0 <= id < m.harts.len() && m.lifecycle_of(id)
            == Some(HartLifecycle::Started),
    decreases distance - offset,
{
    assert(0 <= (m.active + offset) % (m.harts.len() as int) < m.harts.len());
    if offset < distance {
        lemma_some_started(m, offset + 1, distance);
    }
}

// The host's side.

/// A failed exchange writes no guest memory: the guest learns of it from `a0`
/// alone.
pub proof fn failures_write_no_memory(
    m: MachineView,
    id: HostRequestId,
    failure: HostRequestFailure,
)
    ensures
        m.failed_spec(id, failure).0.devices == m.devices,
        m.failed_spec(id, failure).1 is Ok ==> m.failed_spec(id, failure).0.pending is None,
{
}

/// A completed exchange writes the response and no other byte of guest memory.
pub proof fn completions_write_the_response_alone(
    m: MachineView,
    id: HostRequestId,
    response: Seq<u8>,
    at: int,
)
    requires
        m.completed_spec(id, response).1 is Ok,
        0 <= at < m.devices.ram.len(),
        ({
            let start = m.pending->Some_0.response_address - DRAM_BASE;
            at < start || start + response.len() <= at
        }),
    ensures
        m.completed_spec(id, response).0.devices.ram[at] == m.devices.ram[at],
{
    let start = m.pending->Some_0.response_address - DRAM_BASE;
    assert(m.completed_spec(id, response).0.devices.ram == ram::splice(
        m.devices.ram,
        start,
        response,
    ));
}

/// Loading another program gives a pending request up: its completion is
/// refused from then on, and its number is not given out again.
pub proof fn reloading_drops_the_request(
    m: MachineView,
    program: Seq<u8>,
    id: HostRequestId,
    response: Seq<u8>,
)
    ensures
        ({
            let after = m.loaded(program);
            &&& after.next_id == m.next_id
            &&& numbers_in_order(after)
            &&& after.completed_spec(id, response) == (
                after,
                Err::<(), HostCompletionError>(HostCompletionError::NoPendingRequest),
            )
        }),
{
}

/// A completion that comes too late, after another program was loaded and has
/// run, completes nothing: numbers go on across reloads.
pub proof fn late_completions_are_refused(
    m: MachineView,
    program: Seq<u8>,
    budget: nat,
    scheduled: bool,
    response: Seq<u8>,
)
    requires
        numbers_in_order(m),
        m.pending is Some,
    ensures
        ({
            let late = m.pending->Some_0.request.id;
            let now = m.loaded(program).ran(budget, scheduled).0;
            &&& now.completed_spec(late, response).0 == now
            &&& now.completed_spec(late, response).1 is Err
        }),
{
    request_numbers_are_fresh(m.loaded(program), budget, scheduled);
}

/// Booting a kernel gives a pending request up in the same way.
pub proof fn booting_drops_the_request(
    m: MachineView,
    kernel: Seq<u8>,
    initramfs: Seq<u8>,
    bootargs: &str,
    id: HostRequestId,
    response: Seq<u8>,
)
    ensures
        ({
            let after = boot::booted(m, kernel, initramfs, bootargs);
            &&& after.next_id == m.next_id
            &&& numbers_in_order(after)
            &&& after.completed_spec(id, response) == (
                after,
                Err::<(), HostCompletionError>(HostCompletionError::NoPendingRequest),
            )
        }),
{
}

/// A checkpoint holds the machine as it was, still waiting for the same
/// request; only cached translations of the active hart are gone.
pub proof fn checkpoints_hold_the_machine(m: MachineView)
    requires
        0 <= m.active < m.harts.len(),
        m.checkpoint_spec() is Ok,
    ensures
        ({
            let held = m.checkpoint_spec()->Ok_0;
            &&& held.outcome() == m.outcome()
            &&& held.pending == m.pending
            &&& held.devices == m.devices
            &&& held.controls == m.controls
            &&& undisturbed(m, held)
            &&& held.harts.len() == m.harts.len()
            &&& forall|i: int|
                0 <= i < m.harts.len() ==> (#[trigger] held.harts[i]) == if i == m.active {
                    (HartState { translation_cache: TranslationCache::empty(), ..m.harts[i] })
                } else {
                    m.harts[i]
                }
        }),
{
}

} // verus!
