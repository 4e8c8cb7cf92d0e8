//! Bounded scheduling slices.

use crate::devices::DevicesView;
use crate::hart::{HartLifecycle, HartState};
use crate::isa;
use crate::isa::architectural_exception;
use crate::kernel_model;
use crate::machine::{
    Machine, MachineView, OutcomeView, RunState, SliceOutcome, SliceReport,
};
use crate::machine_laws;
use crate::platform::{HostRequestId, InvalidHartId};
use crate::ram;
use crate::step;
use crate::step::StepEffect;
use vstd::prelude::*;

verus! {

#[verifier::ext_equal]
pub struct ReportView {
    pub outcome: OutcomeView,
    pub steps_executed: u64,
    pub total_steps_executed: u64,
    pub instructions_retired: u64,
    pub total_instructions_retired: u64,
    pub console: Seq<u8>,
}

impl SliceReport {
    pub open spec fn view(&self) -> ReportView {
        ReportView {
            outcome: self.outcome.view(),
            steps_executed: self.steps_executed,
            total_steps_executed: self.total_steps_executed,
            instructions_retired: self.instructions_retired,
            total_instructions_retired: self.total_instructions_retired,
            console: self.console@,
        }
    }
}

impl MachineView {
    /// Neither stopped nor waiting for the host.
    pub open spec fn runnable(self) -> bool {
        self.state == RunState::Runnable && self.pending is None
    }

    /// Machine about to step: the scheduler's choice with its mailbox drained,
    /// or the fixed hart if it is started.
    pub open spec fn prepared(self, scheduled: bool) -> Option<MachineView> {
        if scheduled {
            match self.scheduled_spec() {
                Some(chosen) => Some(chosen.control_applied(chosen.active)),
                None => None,
            }
        } else if self.hart().lifecycle == HartLifecycle::Started {
            Some(self)
        } else {
            None
        }
    }

    /// Machine charged for one step.
    pub open spec fn charged(self, scheduled: bool) -> MachineView {
        let hart = self.hart();
        MachineView {
            steps: self.steps.saturating_add(1),
            devices: DevicesView {
                mtime: self.devices.mtime.wrapping_add(1),
                ..self.devices
            },
            quantum: if scheduled {
                self.quantum.saturating_sub(1)
            } else {
                self.quantum
            },
            ..self.with_hart(HartState { cycle: hart.cycle.wrapping_add(1), ..hart })
        }
    }

    /// Machine after a completed step is accounted for.
    pub open spec fn settled(self, effect: StepEffect, scheduled: bool) -> MachineView {
        let charged = self.charged(scheduled);
        let hart = charged.hart();
        let counted = if effect.retired {
            MachineView {
                retired: charged.retired.saturating_add(1),
                ..charged.with_hart(HartState { instret: hart.instret.wrapping_add(1), ..hart })
            }
        } else {
            charged
        };
        match effect.halt {
            Some(status) => MachineView { state: RunState::Halted(status), ..counted },
            None => counted,
        }
    }

    /// One turn of the loop: the machine after it, whether it is charged to the
    /// budget and whether an instruction retired. An architectural exception
    /// is charged; any other trap stops the machine.
    pub open spec fn turned(self, scheduled: bool) -> (MachineView, bool, bool) {
        let (after, result) = step::step_spec(self);
        match result {
            Ok(effect) => (after.settled(effect, scheduled), true, effect.retired),
            Err(trap) => match isa::exception_of(trap) {
                Some(exception) => {
                    let charged = after.charged(scheduled);
                    let hart = charged.hart();
                    (
                        charged.with_hart(
                            hart.excepted(exception.0, exception.1, hart.cpu.pc),
                        ),
                        true,
                        false,
                    )
                },
                None => (MachineView { state: RunState::Trapped(trap), ..after }, false, false),
            },
        }
    }

    /// The machine after at most `budget` charged steps, with the numbers of
    /// steps taken and of instructions retired.
    pub open spec fn ran(self, budget: nat, scheduled: bool) -> (MachineView, nat, nat)
        decreases budget,
    {
        if budget == 0 || !self.runnable() {
            (self, 0, 0)
        } else {
            match self.prepared(scheduled) {
                None => (self, 0, 0),
                Some(ready) => {
                    let (after, charged, retired) = ready.turned(scheduled);
                    if !charged {
                        (after, 0, 0)
                    } else {
                        let rest = after.ran((budget - 1) as nat, scheduled);
                        (
                            rest.0,
                            rest.1 + 1,
                            if retired {
                                rest.2 + 1
                            } else {
                                rest.2
                            },
                        )
                    }
                },
            }
        }
    }

    pub open spec fn outcome(self) -> OutcomeView {
        match self.pending {
            Some(pending) => OutcomeView::HostRequest(pending.request),
            None => match self.state {
                RunState::Runnable => OutcomeView::Yielded,
                RunState::Halted(status) => OutcomeView::Halted(status),
                RunState::Trapped(trap) => OutcomeView::Trapped(trap),
            },
        }
    }

    /// A whole slice: the mailbox of the active hart is drained, the loop runs,
    /// and the console output is handed over.
    pub open spec fn slice_spec(self, budget: u64, scheduled: bool) -> (MachineView, ReportView) {
        let (after, steps, retired) = self.control_applied(self.active).ran(
            budget as nat,
            scheduled,
        );
        (
            after.with_devices(DevicesView { output: Seq::empty(), ..after.devices }),
            ReportView {
                outcome: after.outcome(),
                steps_executed: steps as u64,
                total_steps_executed: after.steps,
                instructions_retired: retired as u64,
                total_instructions_retired: after.retired,
                console: after.devices.output,
            },
        )
    }
}

impl Machine {
    fn charge(&mut self, scheduled: bool)
        requires
            old(self).wf(),
        ensures
            final(self).wf(),
            final(self)@ == old(self)@.charged(scheduled),
    {
        let active: usize = self.active_hart_id;
        self.steps_executed = self.steps_executed.saturating_add(1);
        self.harts[active].cycle = self.harts[active].cycle.wrapping_add(1);
        self.devices.tick();
        if scheduled {
            self.scheduler_quantum_remaining = self.scheduler_quantum_remaining.saturating_sub(1);
        }
    }

    fn settle(&mut self, effect: StepEffect, scheduled: bool)
        requires
            old(self).wf(),
        ensures
            final(self).wf(),
            final(self)@ == old(self)@.settled(effect, scheduled),
    {
        self.charge(scheduled);
        if effect.retired {
            let active: usize = self.active_hart_id;
            self.instructions_retired = self.instructions_retired.saturating_add(1);
            self.harts[active].instret = self.harts[active].instret.wrapping_add(1);
        }
        if let Some(status) = effect.halt {
            self.state = RunState::Halted(status);
        }
    }

    fn prepare(&mut self, scheduled: bool) -> (r: bool)
        requires
            old(self).wf(),
        ensures
            final(self).wf(),
            match old(self)@.prepared(scheduled) {
                Some(ready) => r && final(self)@ == ready,
                None => !r && final(self)@ == old(self)@,
            },
    {
        if scheduled {
            if !self.select_runnable_hart() {
                return false;
            }
            let active: usize = self.active_hart_id;
            self.apply_hart_control(active);
            return true;
        }
        self.harts[self.active_hart_id].lifecycle == HartLifecycle::Started
    }

    /// One turn; the first result tells whether the budget is charged, the
    /// second whether an instruction retired.
    fn turn(&mut self, scheduled: bool) -> (r: (bool, bool))
        requires
            old(self).wf(),
        ensures
            final(self).wf(),
            (final(self)@, r.0, r.1) == old(self)@.turned(scheduled),
    {
        match self.step() {
            Ok(effect) => {
                self.settle(effect, scheduled);
                (true, effect.retired)
            },
            Err(trap) => match architectural_exception(&trap) {
                Some((cause, value)) => {
                    self.charge(scheduled);
                    let active: usize = self.active_hart_id;
                    let pc: u64 = self.harts[active].cpu.pc;
                    self.harts[active].take_exception(cause, value, pc);
                    (true, false)
                },
                None => {
                    self.state = RunState::Trapped(trap);
                    (false, false)
                },
            },
        }
    }

    fn run_slice_inner(&mut self, instruction_budget: u64, scheduled: bool) -> (r: SliceReport)
        requires
            old(self).wf(),
        ensures
            final(self).wf(),
            (final(self)@, r@) == old(self)@.slice_spec(instruction_budget, scheduled),
            r@.steps_executed <= instruction_budget,
            r@.instructions_retired <= r@.steps_executed,
            r@.console.len() <= old(self)@.config.max_console_bytes,
            r@.total_steps_executed == kernel_model::smaller(
                old(self)@.steps + r@.steps_executed,
                u64::MAX as int,
            ),
            r@.total_instructions_retired == kernel_model::smaller(
                old(self)@.retired + r@.instructions_retired,
                u64::MAX as int,
            ),
    {
        let active: usize = self.active_hart_id;
        self.apply_hart_control(active);
        let ghost start = self@;
        let ghost whole = start.ran(instruction_budget as nat, scheduled);
        let mut steps: u64 = 0;
        let mut retired: u64 = 0;
        let mut going: bool = true;
        while going && steps < instruction_budget
            invariant
                self.wf(),
                steps <= instruction_budget,
                retired <= steps,
                going ==> ({
                    let rest = self@.ran((instruction_budget - steps) as nat, scheduled);
                    whole.0 == rest.0 && whole.1 == steps + rest.1 && whole.2 == retired + rest.2
                }),
                !going ==> whole.0 == self@ && whole.1 == steps && whole.2 == retired,
            decreases
                instruction_budget - steps,
                if going {
                    1int
                } else {
                    0int
                },
        {
            let runnable: bool = match self.state {
                RunState::Runnable => self.pending_9p_request.is_none(),
                _ => false,
            };
            if !runnable {
                going = false;
            } else if !self.prepare(scheduled) {
                going = false;
            } else {
                let (charged, finished) = self.turn(scheduled);
                if charged {
                    steps = steps + 1;
                    if finished {
                        retired = retired + 1;
                    }
                } else {
                    going = false;
                }
            }
        }
        proof {
            machine_laws::totals_follow_the_reports(start, instruction_budget as nat, scheduled);
        }
        let outcome = match &self.pending_9p_request {
            Some(pending) => SliceOutcome::HostRequest(pending.request.duplicate()),
            None => match self.state {
                RunState::Runnable => SliceOutcome::Yielded,
                RunState::Halted(status) => SliceOutcome::Halted(status),
                RunState::Trapped(trap) => SliceOutcome::Trapped(trap),
            },
        };
        let total_steps_executed: u64 = self.steps_executed;
        let total_instructions_retired: u64 = self.instructions_retired;
        let console = self.devices.take_new_console();
        SliceReport {
            outcome,
            steps_executed: steps,
            total_steps_executed,
            instructions_retired: retired,
            total_instructions_retired,
            console,
        }
    }

    /// Run at most `instruction_budget` instructions and return control to the Realm.
    pub fn run_slice(&mut self, instruction_budget: u64) -> (r: SliceReport)
        requires
            old(self).wf(),
        ensures
            final(self).wf(),
            (final(self)@, r@) == old(self)@.slice_spec(instruction_budget, true),
            r@.steps_executed <= instruction_budget,
            r@.instructions_retired <= r@.steps_executed,
            r@.console.len() <= old(self)@.config.max_console_bytes,
            r@.total_steps_executed == kernel_model::smaller(
                old(self)@.steps + r@.steps_executed,
                u64::MAX as int,
            ),
            r@.total_instructions_retired == kernel_model::smaller(
                old(self)@.retired + r@.instructions_retired,
                u64::MAX as int,
            ),
    {
        self.run_slice_inner(instruction_budget, true)
    }

    /// Run only one exact admitted hart without invoking the deterministic
    /// round-robin scheduler. A stopped hart yields without consuming a step.
    pub fn run_hart_slice(&mut self, hart_id: usize, instruction_budget: u64) -> (r: Result<
        SliceReport,
        InvalidHartId,
    >)
        requires
            old(self).wf(),
        ensures
            final(self).wf(),
            match r {
                Ok(report) => {
                    &&& hart_id < old(self)@.harts.len()
                    &&& (final(self)@, report@) == (MachineView {
                        active: hart_id as int,
                        ..old(self)@
                    }).slice_spec(instruction_budget, false)
                    &&& report@.steps_executed <= instruction_budget
                    &&& report@.instructions_retired <= report@.steps_executed
                    &&& report@.console.len() <= old(self)@.config.max_console_bytes
                },
                Err(error) => {
                    &&& hart_id >= old(self)@.harts.len()
                    &&& error == (InvalidHartId { hart_id, hart_count: old(self).hart_count })
                    &&& final(self)@ == old(self)@
                },
            },
    {
        if hart_id >= self.hart_count {
            return Err(InvalidHartId { hart_id, hart_count: self.hart_count });
        }
        self.active_hart_id = hart_id;
        Ok(self.run_slice_inner(instruction_budget, false))
    }
}

/// A slice never takes more steps than its budget, nor retires more
/// instructions than it takes steps.
pub proof fn slice_stays_within_its_budget(m: MachineView, budget: nat, scheduled: bool)
    ensures
        m.ran(budget, scheduled).2 <= m.ran(budget, scheduled).1 <= budget,
    decreases budget,
{
    if budget > 0 && m.runnable() {
        if let Some(ready) = m.prepared(scheduled) {
            let turn = ready.turned(scheduled);
            slice_stays_within_its_budget(turn.0, (budget - 1) as nat, scheduled);
        }
    }
}

/// Running for two budgets one after the other is running once for their sum:
/// where a slice ends does not change what the guest does.
pub proof fn budgets_add_up(m: MachineView, first: nat, second: nat, scheduled: bool)
    ensures
        ({
            let whole = m.ran(first + second, scheduled);
            let head = m.ran(first, scheduled);
            let tail = head.0.ran(second, scheduled);
            whole == (tail.0, head.1 + tail.1, head.2 + tail.2)
        }),
    decreases first,
{
    if first > 0 && m.runnable() {
        if let Some(ready) = m.prepared(scheduled) {
            let turn = ready.turned(scheduled);
            if turn.1 {
                budgets_add_up(turn.0, (first - 1) as nat, second, scheduled);
                assert((first + second - 1) as nat == (first - 1) as nat + second);
            }
        }
    }
}

/// A machine that has stopped, or that waits for the host, takes no step and
/// does not change.
pub proof fn stopped_machine_stays_put(m: MachineView, budget: nat, scheduled: bool)
    requires
        !m.runnable(),
    ensures
        m.ran(budget, scheduled) == (m, 0nat, 0nat),
{
}

/// A completion that names another request, or none that is pending, changes
/// nothing.
pub proof fn stale_completion_is_refused(m: MachineView, id: HostRequestId, response: Seq<u8>)
    requires
        m.pending matches Some(pending) ==> pending.request.id != id,
    ensures
        m.completed_spec(id, response).0 == m,
        m.completed_spec(id, response).1 is Err,
{
}

/// A completed exchange leaves nothing pending, and the guest finds exactly the
/// response bytes at the address it named and their number in `a1`.
pub proof fn completion_delivers_the_response(m: MachineView, id: HostRequestId, response: Seq<u8>)
    requires
        m.completed_spec(id, response).1 is Ok,
        response.len() <= u64::MAX,
        m.pending matches Some(pending) ==> pending.hart_id < m.harts.len(),
    ensures
        ({
            let after = m.completed_spec(id, response).0;
            let address = m.pending->Some_0.response_address;
            let start = address - crate::platform::DRAM_BASE;
            &&& after.pending is None
            &&& after.reg(10) == crate::platform::SBI_SUCCESS
            &&& after.reg(11) == response.len()
            &&& after.devices.ram.subrange(start, start + response.len()) == response
        }),
{
    let after = m.completed_spec(id, response).0;
    let pending = m.pending->Some_0;
    let start = pending.response_address - crate::platform::DRAM_BASE;
    assert(after.devices.ram == ram::splice(m.devices.ram, start, response));
    assert(after.devices.ram.subrange(start, start + response.len()) =~= response);
}

} // verus!
