//! From boot to checkpoint: what slices, answers and the durable format keep.

use crate::boot;
use crate::checkpoint;
use crate::codec;
use crate::codec::CheckpointBinding;
use crate::conduct;
use crate::devices::DevicesView;
use crate::fdt;
use crate::hart::{HartState, TranslationCache};
use crate::isa;
use crate::machine;
use crate::machine::{MachineView, OutcomeView};
use crate::machine_laws;
use crate::orderly;
use crate::platform;
use crate::platform::{HostRequestFailure, HostRequestId, MachineConfig, MAX_HARTS};
use crate::run;
use crate::run::ReportView;
use crate::step;
use vstd::prelude::*;

verus! {

// Runs.

/// The selected hart's mailbox is empty.
pub open spec fn quiet(m: MachineView) -> bool {
    m.controls[m.active].quiescent()
}

proof fn lemma_next_started(m: MachineView, offset: nat)
    requires
        m.harts.len() > 0,
    ensures
        m.next_started(offset) matches Some(id) ==> 0 <= id < m.harts.len(),
    decreases m.harts.len() + 1 - offset,
{
    if offset <= m.harts.len() {
        lemma_next_started(m, offset + 1);
        assert(0 <= (m.active + offset) % (m.harts.len() as int) < m.harts.len());
    }
}

/// A machine about to step is as before, but for whose turn it is and for an
/// emptied mailbox.
proof fn lemma_prepared(m: MachineView, scheduled: bool)
    requires
        conduct::equipped(m),
        quiet(m),
    ensures
        m.prepared(scheduled) matches Some(ready) ==> {
            &&& conduct::equipped(ready)
            &&& quiet(ready)
            &&& ready.harts.len() == m.harts.len()
            &&& conduct::orderly_machine(m) ==> conduct::orderly_machine(ready)
        },
{
    if scheduled {
        if let Some(chosen) = m.scheduled_spec() {
            lemma_next_started(m, 1);
            assert(conduct::orderly_machine(m) ==> conduct::orderly_machine(chosen)) by {
                reveal(conduct::orderly_machine);
            }
            conduct::lemma_control_applied(chosen, chosen.active);
        }
    }
}

proof fn lemma_charged(m: MachineView, scheduled: bool)
    requires
        conduct::equipped(m),
    ensures
        conduct::steers(m, m.charged(scheduled)),
{
    reveal(conduct::orderly_machine);
    let hart = m.hart();
    conduct::lemma_hart_steady(m, HartState { cycle: hart.cycle.wrapping_add(1), ..hart });
}

proof fn lemma_turned(m: MachineView, scheduled: bool)
    requires
        conduct::equipped(m),
    ensures
        conduct::steers(m, m.turned(scheduled).0),
{
    conduct::lemma_step(m);
    let (after, result) = step::step_spec(m);
    lemma_charged(after, scheduled);
    let charged = after.charged(scheduled);
    let hart = charged.hart();
    match result {
        Ok(effect) => {
            conduct::lemma_hart_steady(
                charged,
                HartState { instret: hart.instret.wrapping_add(1), ..hart },
            );
            assert(conduct::steers(m, after.settled(effect, scheduled))) by {
                reveal(conduct::orderly_machine);
            }
        },
        Err(trap) => {
            if let Some((cause, value)) = isa::exception_of(trap) {
                if orderly::fit(hart, charged.active) {
                    orderly::lemma_excepted_hart(
                        hart,
                        charged.active,
                        cause,
                        value,
                        hart.cpu.pc,
                    );
                }
                conduct::lemma_hart_changed(charged, hart.excepted(cause, value, hart.cpu.pc));
            }
            assert(conduct::steers(m, m.turned(scheduled).0)) by {
                reveal(conduct::orderly_machine);
            }
        },
    }
}

pub proof fn lemma_ran(m: MachineView, budget: nat, scheduled: bool)
    requires
        conduct::equipped(m),
        quiet(m),
    ensures
        ({
            let after = m.ran(budget, scheduled).0;
            &&& conduct::equipped(after)
            &&& quiet(after)
            &&& after.harts.len() == m.harts.len()
            &&& conduct::orderly_machine(m) ==> conduct::orderly_machine(after)
        }),
    decreases budget,
{
    if budget > 0 && m.runnable() {
        lemma_prepared(m, scheduled);
        if let Some(ready) = m.prepared(scheduled) {
            lemma_turned(ready, scheduled);
            lemma_ran(ready.turned(scheduled).0, (budget - 1) as nat, scheduled);
        }
    }
}

/// A slice leaves the selected hart's mailbox empty and an orderly machine
/// orderly.
pub proof fn slices_keep_machines_orderly(m: MachineView, budget: u64, scheduled: bool)
    requires
        conduct::equipped(m),
    ensures
        ({
            let after = m.slice_spec(budget, scheduled).0;
            &&& conduct::equipped(after)
            &&& quiet(after)
            &&& after.harts.len() == m.harts.len()
            &&& conduct::orderly_machine(m) ==> conduct::orderly_machine(after)
        }),
{
    conduct::lemma_control_applied(m, m.active);
    let drained = m.control_applied(m.active);
    lemma_ran(drained, budget as nat, scheduled);
    let ran = drained.ran(budget as nat, scheduled).0;
    conduct::lemma_devices_changed(ran, DevicesView { output: Seq::empty(), ..ran.devices });
}

/// A slice on a machine that has stopped, or that waits for the host, repeats
/// the outcome and the totals, takes no step, prints nothing and changes
/// nothing.
pub proof fn stopped_machines_repeat_their_report(
    m: MachineView,
    first: u64,
    second: u64,
    scheduled: bool,
)
    requires
        conduct::equipped(m),
        m.slice_spec(first, scheduled).1.outcome != OutcomeView::Yielded,
    ensures
        ({
            let (after, report) = m.slice_spec(first, scheduled);
            after.slice_spec(second, scheduled) == (
                after,
                ReportView {
                    steps_executed: 0,
                    instructions_retired: 0,
                    console: Seq::empty(),
                    ..report
                },
            )
        }),
{
    let (after, report) = m.slice_spec(first, scheduled);
    slices_keep_machines_orderly(m, first, scheduled);
    conduct::lemma_drained(after, after.active);
    run::stopped_machine_stays_put(after, second as nat, scheduled);
    let again = after.slice_spec(second, scheduled);
    assert(again.0 =~= after);
    assert(again.1 =~= (ReportView {
        steps_executed: 0,
        instructions_retired: 0,
        console: Seq::empty(),
        ..report
    }));
}

// From boot to checkpoint.

/// An orderly machine whose guest runs under the firmware.
pub open spec fn hosted(m: MachineView) -> bool {
    conduct::orderly_machine(m) && m.firmware
}

proof fn lemma_reset_orderly(m: MachineView)
    requires
        1 <= m.harts.len() <= MAX_HARTS,
        machine::admitted_config(m.config),
        m.devices.ram.len() == m.config.ram_bytes,
        m.next_id != 0,
    ensures
        conduct::orderly_machine(m.reset_for_image()),
{
    reveal(conduct::orderly_machine);
    let after = m.reset_for_image();
    assert forall|i: int| 0 <= i < after.harts.len() implies orderly::fit(
        #[trigger] after.harts[i],
        i,
    ) by {
        orderly::lemma_fresh_hart(i as usize, machine::boot_lifecycle(i));
    }
    orderly::lemma_nothing_added(0);
}

/// A fresh machine is orderly.
pub proof fn fresh_machines_are_orderly(config: MachineConfig, hart_count: nat)
    requires
        1 <= hart_count <= MAX_HARTS,
        machine::admitted_config(config),
    ensures
        conduct::orderly_machine(MachineView::fresh(config, hart_count)),
        conduct::equipped(MachineView::fresh(config, hart_count)),
{
    let fresh = MachineView::fresh(config, hart_count);
    lemma_reset_orderly(fresh);
    assert(fresh.reset_for_image() =~= fresh);
}

/// Booting a kernel on an orderly machine hosts it.
pub proof fn booted_machines_are_hosted(
    m: MachineView,
    kernel: Seq<u8>,
    initramfs: Seq<u8>,
    bootargs: &str,
)
    requires
        conduct::orderly_machine(m),
    ensures
        hosted(boot::booted(m, kernel, initramfs, bootargs)),
        boot::booted(m, kernel, initramfs, bootargs).harts.len() == m.harts.len(),
{
    assert(1 <= m.harts.len() <= MAX_HARTS && machine::admitted_config(m.config)
        && m.devices.ram.len() == m.config.ram_bytes && m.next_id != 0) by {
        reveal(conduct::orderly_machine);
    }
    let tree = fdt::linux_blob(
        boot::boot_config(m, kernel.len(), initramfs.len(), bootargs),
        m.harts.len(),
    );
    let ram = boot::boot_ram(m, kernel, initramfs, tree);
    assert(ram.len() == m.devices.ram.len());
    lemma_kernel_entered(m, ram);
}

proof fn lemma_kernel_entered(m: MachineView, ram: Seq<u8>)
    requires
        1 <= m.harts.len() <= MAX_HARTS,
        machine::admitted_config(m.config),
        m.devices.ram.len() == m.config.ram_bytes,
        m.next_id != 0,
        ram.len() == m.devices.ram.len(),
    ensures
        ({
            let reset = m.reset_for_image();
            let loaded = reset.with_devices(DevicesView { ram, ..reset.devices });
            let after = MachineView {
                firmware: true,
                ..loaded.with_hart(boot::boot_hart(loaded.hart()))
            };
            hosted(after) && after.harts.len() == m.harts.len()
        }),
{
    lemma_reset_orderly(m);
    let reset = m.reset_for_image();
    let devices = DevicesView { ram, ..reset.devices };
    let loaded = reset.with_devices(devices);
    conduct::lemma_devices_changed(reset, devices);
    assert(orderly::fit(loaded.hart(), 0)) by {
        reveal(conduct::orderly_machine);
    }
    orderly::lemma_booted_hart(loaded.hart());
    conduct::lemma_hart_changed(loaded, boot::boot_hart(loaded.hart()));
    let entered = loaded.with_hart(boot::boot_hart(loaded.hart()));
    assert(conduct::orderly_machine((MachineView { firmware: true, ..entered }))) by {
        reveal(conduct::orderly_machine);
    }
}

/// Slices keep a machine hosted.
pub proof fn slices_keep_machines_hosted(m: MachineView, budget: u64, scheduled: bool)
    requires
        hosted(m),
    ensures
        hosted(m.slice_spec(budget, scheduled).0),
        m.slice_spec(budget, scheduled).0.harts.len() == m.harts.len(),
{
    assert(conduct::equipped(m)) by {
        reveal(conduct::orderly_machine);
    }
    slices_keep_machines_orderly(m, budget, scheduled);
    lemma_firmware_stays(m.control_applied(m.active), budget as nat, scheduled);
}

proof fn lemma_firmware_stays(m: MachineView, budget: nat, scheduled: bool)
    ensures
        m.ran(budget, scheduled).0.firmware == m.firmware,
    decreases budget,
{
    if budget > 0 && m.runnable() {
        if let Some(ready) = m.prepared(scheduled) {
            machine_laws::lemma_step_issues(ready);
            lemma_firmware_stays(ready.turned(scheduled).0, (budget - 1) as nat, scheduled);
        }
    }
}

/// Answering a request, or giving it up, keeps a machine hosted.
pub proof fn answers_keep_machines_hosted(
    m: MachineView,
    id: HostRequestId,
    response: Seq<u8>,
    failure: HostRequestFailure,
)
    requires
        hosted(m),
    ensures
        hosted(m.completed_spec(id, response).0),
        hosted(m.failed_spec(id, failure).0),
        m.completed_spec(id, response).0.harts.len() == m.harts.len(),
        m.failed_spec(id, failure).0.harts.len() == m.harts.len(),
{
    if let Some(pending) = m.pending {
        if pending.hart_id < m.harts.len() {
            let switched = MachineView { active: pending.hart_id as int, ..m };
            assert(conduct::orderly_machine(switched)) by {
                reveal(conduct::orderly_machine);
            }
            conduct::lemma_register_set(switched, 10, platform::SBI_ERR_FAILED);
            conduct::lemma_register_set(
                switched.set_reg(10, platform::SBI_ERR_FAILED),
                11,
                0,
            );
            conduct::lemma_register_set(switched, 10, platform::SBI_ERR_DENIED);
            conduct::lemma_register_set(
                switched.set_reg(10, platform::SBI_ERR_DENIED),
                11,
                0,
            );
            if let Some(devices) = m.devices.copy_in_spec(pending.response_address, response) {
                conduct::lemma_devices_changed(switched, devices);
                let copied = switched.with_devices(devices);
                conduct::lemma_register_set(copied, 10, platform::SBI_SUCCESS);
                conduct::lemma_register_set(
                    copied.set_reg(10, platform::SBI_SUCCESS),
                    11,
                    response.len() as u64,
                );
            }
        }
    }
    assert(hosted(m.completed_spec(id, response).0) && hosted(m.failed_spec(id, failure).0)) by {
        reveal(conduct::orderly_machine);
    }
}

/// A hosted machine that can be checkpointed survives the durable format: what
/// is decoded from its artifact has every hart, register, counter and byte of
/// RAM, and still waits for the same request. A reservation that a hart holds
/// outside of RAM is the one thing that the format refuses.
pub proof fn hosted_checkpoints_survive_the_format(m: MachineView, binding: CheckpointBinding)
    requires
        hosted(m),
        m.checkpoint_spec() is Ok,
        forall|i: int|
            0 <= i < m.harts.len() ==> codec::reservation_valid(
                (#[trigger] m.harts[i]).reservation,
                m.config.ram_bytes as int,
            ),
    ensures
        ({
            let held = m.checkpoint_spec()->Ok_0;
            let decoded = checkpoint::artifact_read(
                checkpoint::artifact_of(held, binding),
                binding,
            );
            &&& codec::admissible(held)
            &&& decoded is Ok
            &&& codec::payload_of(decoded->Ok_0, binding) == codec::payload_of(held, binding)
            &&& decoded->Ok_0.harts.len() == m.harts.len()
            &&& forall|i: int|
                0 <= i < m.harts.len() ==> (#[trigger] decoded->Ok_0.harts[i]) == (HartState {
                    translation_cache: TranslationCache::empty(),
                    ..m.harts[i]
                })
            &&& decoded->Ok_0.devices.ram == m.devices.ram
            &&& decoded->Ok_0.devices.mtime == m.devices.mtime
            &&& decoded->Ok_0.active == m.active
            &&& decoded->Ok_0.quantum == m.quantum
            &&& decoded->Ok_0.steps == m.steps
            &&& decoded->Ok_0.retired == m.retired
            &&& decoded->Ok_0.next_id == m.next_id
            &&& decoded->Ok_0.pending == m.pending
        }),
{
    reveal(conduct::orderly_machine);
    let held = m.checkpoint_spec()->Ok_0;
    assert forall|i: int| 0 <= i < held.harts.len() implies codec::hart_admissible(
        #[trigger] held.harts[i],
        i,
        held.config.ram_bytes as int,
    ) by {
        assert(orderly::fit(m.harts[i], i));
        assert(codec::reservation_valid(m.harts[i].reservation, m.config.ram_bytes as int));
        orderly::lemma_even(m.harts[i].cpu.pc);
    }
    assert(codec::admissible(held));
    checkpoint::artifact_round_trip(held, binding);
    codec::encoding_is_canonical(held, binding);
}

} // verus!
