//! The admitted machine: its state, its model and its outer interface.

use crate::bytes;
use crate::devices;
use crate::devices::{Devices, DevicesView};
use crate::hart::{ControlPhase, HartControl, HartLifecycle, HartState, TranslationCache};
use crate::isa::{Csr, MachineTrap, Privilege};
use crate::platform::{
    CheckpointError, HaltStatus, HostCompletionError, HostRequestFailure, HostRequestId,
    MachineConfig, MachineError, CLINT_BASE, CLINT_MSIP, CLINT_MTIME, CLINT_MTIMECMP, CLINT_SIZE,
    HART_SCHEDULER_QUANTUM, MAX_CONSOLE_BYTES, MAX_HARTS, MAX_RAM_BYTES, MAX_9P_MESSAGE_BYTES,
    MIN_9P_MESSAGE_BYTES,
    MIN_RAM_BYTES, SBI_ERR_DENIED, SBI_ERR_FAILED, SBI_SUCCESS,
};
use crate::ram;
use vstd::prelude::*;

verus! {

/// One complete 9P request copied out of admitted guest RAM.
#[derive(Clone, Debug, PartialEq, Eq)]
pub struct Plan9Request {
    /// Unique identity required when completing or failing this request.
    pub id: HostRequestId,
    /// Guest-selected mount channel whose FID and tag space is isolated from
    /// every other 9P mount in this machine.
    pub channel: u32,
    /// Complete size-prefixed 9P request message.
    pub message: Vec<u8>,
    /// Maximum complete response message admitted by the guest buffer.
    pub max_response_bytes: usize,
}

#[verifier::ext_equal]
pub struct Plan9RequestView {
    pub id: HostRequestId,
    pub channel: u32,
    pub message: Seq<u8>,
    pub max_response_bytes: usize,
}

impl Plan9Request {
    pub open spec fn view(&self) -> Plan9RequestView {
        Plan9RequestView {
            id: self.id,
            channel: self.channel,
            message: self.message@,
            max_response_bytes: self.max_response_bytes,
        }
    }

    /// An exact copy.
    pub fn duplicate(&self) -> (r: Self)
        ensures
            r@ == self@,
    {
        let message: Vec<u8> = bytes::copy_range(self.message.as_slice(), 0, self.message.len());
        assert(message@ =~= self.message@);
        Plan9Request {
            id: self.id,
            channel: self.channel,
            message,
            max_response_bytes: self.max_response_bytes,
        }
    }
}

/// A host request together with the place its response goes to.
#[derive(Clone, Debug)]
pub struct PendingPlan9Request {
    pub request: Plan9Request,
    pub response_address: u64,
    pub hart_id: usize,
}

#[verifier::ext_equal]
pub struct PendingView {
    pub request: Plan9RequestView,
    pub response_address: u64,
    pub hart_id: usize,
}

impl PendingPlan9Request {
    pub open spec fn view(&self) -> PendingView {
        PendingView {
            request: self.request@,
            response_address: self.response_address,
            hart_id: self.hart_id,
        }
    }
}

/// Whether guest execution can continue.
#[derive(Clone, Copy, Debug, PartialEq, Eq, Structural)]
pub enum RunState {
    Runnable,
    Halted(HaltStatus),
    Trapped(MachineTrap),
}

/// Result of one bounded scheduling slice.
#[derive(Clone, Debug, PartialEq, Eq)]
pub enum SliceOutcome {
    /// The instruction budget ended while the guest remained runnable.
    Yielded,
    /// The guest wrote a terminal value to the standard finisher.
    Halted(HaltStatus),
    /// The guest is paused until the outer Realm completes this request.
    HostRequest(Plan9Request),
    /// The guest crossed a non-architectural Realm resource boundary.
    Trapped(MachineTrap),
}

#[verifier::ext_equal]
pub enum OutcomeView {
    Yielded,
    Halted(HaltStatus),
    HostRequest(Plan9RequestView),
    Trapped(MachineTrap),
}

impl SliceOutcome {
    pub open spec fn view(&self) -> OutcomeView {
        match self {
            SliceOutcome::Yielded => OutcomeView::Yielded,
            SliceOutcome::Halted(status) => OutcomeView::Halted(*status),
            SliceOutcome::HostRequest(request) => OutcomeView::HostRequest(request@),
            SliceOutcome::Trapped(trap) => OutcomeView::Trapped(*trap),
        }
    }
}

/// Exact accounting and serial bytes produced by one scheduling slice.
#[derive(Clone, Debug, PartialEq, Eq)]
pub struct SliceReport {
    /// Result at the end of this slice.
    pub outcome: SliceOutcome,
    /// Successfully interpreted instruction steps charged to this scheduling
    /// slice. Architecturally non-retiring traps such as `ecall` still consume
    /// one bounded step.
    pub steps_executed: u64,
    /// Total charged instruction steps since the last image load.
    pub total_steps_executed: u64,
    /// Instructions retired during this slice.
    pub instructions_retired: u64,
    /// Total instructions retired since the last image load.
    pub total_instructions_retired: u64,
    /// Serial output produced since the previous slice report.
    pub console: Vec<u8>,
}

/// Cumulative hot-path measurements since the last image load.
///
/// These counters describe where the interpreter spends semantic work without
/// changing its instruction-fuel contract. They are diagnostic, not
/// guest-visible architectural counters.
#[derive(Clone, Copy, Debug, PartialEq, Eq, Structural)]
pub struct MachineMetrics {
    /// Instruction fetches attempted after interrupt and alignment checks.
    pub instruction_fetches: u64,
    /// Virtual-to-physical translations requested for instruction fetches.
    pub instruction_translations: u64,
    /// Virtual-to-physical translations requested for guest loads.
    pub load_translations: u64,
    /// Virtual-to-physical translations requested for guest stores.
    pub store_translations: u64,
    /// Sv39 page-table walks started after privilege and mode checks.
    pub sv39_walks: u64,
    /// Page-table entries read while walking Sv39 tables.
    pub page_table_entries_read: u64,
    /// Page-table entries written to establish accessed or dirty bits.
    pub page_table_entries_written: u64,
    /// Sv39 translations served by the fixed-size machine-local cache.
    pub translation_cache_hits: u64,
    /// Sv39 translations that required a page-table walk.
    pub translation_cache_misses: u64,
    /// Conservative whole-cache invalidations caused by architectural fences
    /// or accepted address-space changes.
    pub translation_cache_flushes: u64,
}

impl MachineMetrics {
    pub open spec fn zero() -> MachineMetrics {
        MachineMetrics {
            instruction_fetches: 0,
            instruction_translations: 0,
            load_translations: 0,
            store_translations: 0,
            sv39_walks: 0,
            page_table_entries_read: 0,
            page_table_entries_written: 0,
            translation_cache_hits: 0,
            translation_cache_misses: 0,
            translation_cache_flushes: 0,
        }
    }

    /// Total virtual-to-physical translation requests of every access type.
    pub fn translations(self) -> (r: u64)
        ensures
            ({
                let total = self.instruction_translations + self.load_translations
                    + self.store_translations;
                r == (if total > u64::MAX {
                    u64::MAX as int
                } else {
                    total
                })
            }),
    {
        self.instruction_translations.saturating_add(self.load_translations).saturating_add(
            self.store_translations,
        )
    }
}

impl Default for MachineMetrics {
    fn default() -> (r: Self)
        ensures
            r == MachineMetrics::zero(),
    {
        MachineMetrics {
            instruction_fetches: 0,
            instruction_translations: 0,
            load_translations: 0,
            store_translations: 0,
            sv39_walks: 0,
            page_table_entries_read: 0,
            page_table_entries_written: 0,
            translation_cache_hits: 0,
            translation_cache_misses: 0,
            translation_cache_flushes: 0,
        }
    }
}

/// Supervisor firmware services offered to the guest.
#[derive(Clone, Copy, Debug, PartialEq, Eq, Structural)]
pub struct SbiFirmware {
    pub enabled: bool,
}

/// An admitted RV64 machine whose execution can only advance in explicit slices.
#[derive(Debug)]
pub struct Machine {
    pub config: MachineConfig,
    pub hart_count: usize,
    pub active_hart_id: usize,
    pub harts: Vec<HartState>,
    pub hart_controls: Vec<HartControl>,
    pub scheduler_quantum_remaining: u64,
    pub devices: Devices,
    pub state: RunState,
    pub steps_executed: u64,
    pub instructions_retired: u64,
    pub firmware: SbiFirmware,
    pub next_host_request_id: u64,
    pub pending_9p_request: Option<PendingPlan9Request>,
    pub metrics: MachineMetrics,
}

/// What the machine holds.
#[verifier::ext_equal]
pub struct MachineView {
    pub config: MachineConfig,
    pub active: int,
    pub harts: Seq<HartState>,
    pub controls: Seq<HartControl>,
    pub quantum: u64,
    pub devices: DevicesView,
    pub state: RunState,
    pub steps: u64,
    pub retired: u64,
    pub firmware: bool,
    pub next_id: u64,
    pub pending: Option<PendingView>,
    pub metrics: MachineMetrics,
}

pub open spec fn boot_lifecycle(hart: int) -> HartLifecycle {
    if hart == 0 {
        HartLifecycle::Started
    } else {
        HartLifecycle::Stopped
    }
}

/// Reset harts: the first is started, the others wait for a start request.
pub open spec fn fresh_harts(count: nat) -> Seq<HartState> {
    Seq::new(count, |i: int| HartState::fresh(i as usize, boot_lifecycle(i)))
}

pub open spec fn fresh_controls(count: nat) -> Seq<HartControl> {
    Seq::new(count, |i: int| HartControl::fresh(boot_lifecycle(i)))
}

pub open spec fn admitted_config(config: MachineConfig) -> bool {
    &&& MIN_RAM_BYTES <= config.ram_bytes <= MAX_RAM_BYTES
    &&& config.ram_bytes % MIN_RAM_BYTES == 0
    &&& config.max_console_bytes <= MAX_CONSOLE_BYTES
}

impl MachineView {
    pub open spec fn fresh(config: MachineConfig, hart_count: nat) -> MachineView {
        MachineView {
            config,
            active: 0,
            harts: fresh_harts(hart_count),
            controls: fresh_controls(hart_count),
            quantum: HART_SCHEDULER_QUANTUM,
            devices: DevicesView::fresh(config),
            state: RunState::Runnable,
            steps: 0,
            retired: 0,
            firmware: false,
            next_id: 1,
            pending: None,
            metrics: MachineMetrics::zero(),
        }
    }

    /// A pending request names a hart of this machine, holds a number that was
    /// given out, and keeps the bounds under which it was admitted.
    pub open spec fn request_sound(self) -> bool {
        self.pending matches Some(pending) ==> {
            &&& pending.request.id.0 != 0
            &&& pending.request.id.0 < self.next_id
            &&& pending.request.channel != 0
            &&& pending.hart_id < self.harts.len()
            &&& MIN_9P_MESSAGE_BYTES <= pending.request.message.len() <= MAX_9P_MESSAGE_BYTES
            &&& MIN_9P_MESSAGE_BYTES <= pending.request.max_response_bytes <= MAX_9P_MESSAGE_BYTES
            &&& devices::ram_offset(
                self.config.ram_bytes as int,
                pending.response_address,
                pending.request.max_response_bytes as int,
            ) is Some
        }
    }

    /// The hart selected by the scheduler.
    pub open spec fn hart(self) -> HartState {
        self.harts[self.active]
    }

    pub open spec fn with_hart(self, hart: HartState) -> MachineView {
        MachineView { harts: self.harts.update(self.active, hart), ..self }
    }

    pub open spec fn with_devices(self, devices: DevicesView) -> MachineView {
        MachineView { devices, ..self }
    }

    pub open spec fn with_metrics(self, metrics: MachineMetrics) -> MachineView {
        MachineView { metrics, ..self }
    }

    pub open spec fn reg(self, register: int) -> u64 {
        self.hart().cpu.get(register)
    }

    pub open spec fn set_reg(self, register: int, value: u64) -> MachineView {
        self.with_hart(self.hart().write_register(register, value))
    }

    /// Machine reset for a new image; host request identities go on.
    pub open spec fn reset_for_image(self) -> MachineView {
        MachineView {
            active: 0,
            harts: fresh_harts(self.harts.len()),
            controls: fresh_controls(self.harts.len()),
            quantum: HART_SCHEDULER_QUANTUM,
            devices: self.devices.reset_spec(),
            state: RunState::Runnable,
            steps: 0,
            retired: 0,
            firmware: false,
            pending: None,
            metrics: MachineMetrics::zero(),
            ..self
        }
    }

    pub open spec fn loaded(self, program: Seq<u8>) -> MachineView {
        let reset = self.reset_for_image();
        reset.with_devices(
            DevicesView { ram: ram::splice(reset.devices.ram, 0, program), ..reset.devices },
        )
    }

    pub open spec fn csr_spec(self, csr: Csr) -> u64 {
        match csr {
            Csr::Cycle | Csr::Mcycle => self.hart().cycle,
            Csr::Time => self.devices.mtime,
            Csr::Instret | Csr::Minstret => self.hart().instret,
            Csr::Mhartid => self.active as u64,
            _ => self.hart().csrs.get(csr),
        }
    }

    pub open spec fn in_clint(address: u64) -> bool {
        CLINT_BASE <= address < CLINT_BASE + CLINT_SIZE
    }

    pub open spec fn read_device_spec(self, address: u64, bytes: u8) -> (
        MachineView,
        Result<u64, MachineTrap>,
    ) {
        if MachineView::in_clint(address) {
            let offset = address - CLINT_BASE;
            if offset == CLINT_MSIP && bytes == 4 {
                (
                    self,
                    Ok(
                        if self.hart().msip {
                            1
                        } else {
                            0
                        },
                    ),
                )
            } else if offset == CLINT_MTIMECMP && bytes == 8 {
                (self, Ok(self.hart().timer_deadline))
            } else if offset == CLINT_MTIME && bytes == 8 {
                (self, Ok(self.devices.mtime))
            } else {
                (self, Err(MachineTrap::LoadAccessFault { address, bytes }))
            }
        } else {
            let (devices, result) = self.devices.read_spec(address, bytes);
            (self.with_devices(devices), result)
        }
    }

    pub open spec fn write_device_spec(self, address: u64, value: u64, bytes: u8) -> (
        MachineView,
        Result<Option<HaltStatus>, MachineTrap>,
    ) {
        if MachineView::in_clint(address) {
            let offset = address - CLINT_BASE;
            if offset == CLINT_MSIP && bytes == 4 {
                (self.with_hart(HartState { msip: value & 1 != 0, ..self.hart() }), Ok(None))
            } else if offset == CLINT_MTIMECMP && bytes == 8 {
                (self.with_hart(HartState { timer_deadline: value, ..self.hart() }), Ok(None))
            } else if offset == CLINT_MTIME && bytes == 8 {
                (self.with_devices(DevicesView { mtime: value, ..self.devices }), Ok(None))
            } else {
                (self, Err(MachineTrap::StoreAccessFault { address, bytes }))
            }
        } else {
            let (devices, result) = self.devices.write_spec(address, value, bytes);
            (self.with_devices(devices), result)
        }
    }

    /// Machine after acknowledging everything in one hart's mailbox.
    pub open spec fn control_applied(self, id: int) -> MachineView {
        let control = self.controls[id];
        let hart = self.harts[id];
        let starting = control.phase == ControlPhase::StartPending;
        let fencing = control.fence_generation != control.fence_acknowledged;
        let started = if starting {
            hart.started_at(id as usize, control.start_address, control.start_opaque)
        } else {
            hart
        };
        let interrupted = HartState {
            csrs: crate::cpu::CsrFile {
                mip: started.csrs.mip | control.pending_interrupts,
                ..started.csrs
            },
            ..started
        };
        let fenced = if fencing {
            HartState { translation_cache: TranslationCache::empty(), ..interrupted }
        } else {
            interrupted
        };
        let taken = HartControl { pending_interrupts: 0, ..control };
        let acknowledged = if starting {
            HartControl {
                start_acknowledged: control.start_generation,
                phase: ControlPhase::Started,
                ..taken
            }
        } else {
            taken
        };
        let settled = if fencing {
            HartControl { fence_acknowledged: control.fence_generation, ..acknowledged }
        } else {
            acknowledged
        };
        MachineView {
            harts: self.harts.update(id, fenced),
            controls: self.controls.update(id, settled),
            metrics: if fencing {
                MachineMetrics {
                    translation_cache_flushes: self.metrics.translation_cache_flushes.saturating_add(
                        1,
                    ),
                    ..self.metrics
                }
            } else {
                self.metrics
            },
            ..self
        }
    }

    /// Machine after a hart starts or stops by itself.
    pub open spec fn lifecycle_set(self, id: int, lifecycle: HartLifecycle) -> MachineView {
        MachineView {
            harts: self.harts.update(id, HartState { lifecycle, ..self.harts[id] }),
            controls: self.controls.update(
                id,
                HartControl {
                    phase: match lifecycle {
                        HartLifecycle::Started => ControlPhase::Started,
                        HartLifecycle::Stopped => ControlPhase::Stopped,
                    },
                    ..self.controls[id]
                },
            ),
            ..self
        }
    }

    pub open spec fn lifecycle_of(self, id: int) -> Option<HartLifecycle> {
        if 0 <= id < self.controls.len() {
            Some(self.controls[id].lifecycle_spec())
        } else {
            None
        }
    }

    /// Distance, in round-robin order after the active hart, of the next
    /// started hart; `None` when every hart is stopped.
    pub open spec fn next_started(self, offset: nat) -> Option<int>
        decreases self.harts.len() + 1 - offset,
    {
        if offset > self.harts.len() {
            None
        } else if self.lifecycle_of((self.active + offset) % (self.harts.len() as int)) == Some(
            HartLifecycle::Started,
        ) {
            Some((self.active + offset) % (self.harts.len() as int))
        } else {
            self.next_started(offset + 1)
        }
    }

    /// Machine with a runnable hart selected, if there is one.
    pub open spec fn scheduled_spec(self) -> Option<MachineView> {
        if self.hart().lifecycle == HartLifecycle::Started && self.quantum > 0 {
            Some(self)
        } else {
            match self.next_started(1) {
                Some(id) => Some(
                    MachineView { active: id, quantum: HART_SCHEDULER_QUANTUM, ..self },
                ),
                None => None,
            }
        }
    }

    /// Machine resumed by a successful host response.
    pub open spec fn completed_spec(self, id: HostRequestId, response: Seq<u8>) -> (
        MachineView,
        Result<(), HostCompletionError>,
    ) {
        match self.pending {
            None => (self, Err(HostCompletionError::NoPendingRequest)),
            Some(pending) => if pending.request.id != id {
                (
                    self,
                    Err(
                        HostCompletionError::RequestIdMismatch {
                            expected: pending.request.id,
                            actual: id,
                        },
                    ),
                )
            } else if response.len() < MIN_9P_MESSAGE_BYTES {
                (self, Err(HostCompletionError::InvalidResponseBytes(response.len() as usize)))
            } else if response.len() > pending.request.max_response_bytes {
                (
                    self,
                    Err(
                        HostCompletionError::ResponseTooLarge {
                            response: response.len() as usize,
                            capacity: pending.request.max_response_bytes,
                        },
                    ),
                )
            } else if pending.hart_id >= self.harts.len() {
                (
                    self,
                    Err(HostCompletionError::RequestHartUnavailable { hart_id: pending.hart_id }),
                )
            } else {
                let switched = MachineView { active: pending.hart_id as int, ..self };
                match self.devices.copy_in_spec(pending.response_address, response) {
                    None => (switched, Err(HostCompletionError::ResponseAddressUnavailable)),
                    Some(devices) => (
                        MachineView {
                            pending: None,
                            ..switched.with_devices(devices).set_reg(10, SBI_SUCCESS).set_reg(
                                11,
                                response.len() as u64,
                            )
                        },
                        Ok(()),
                    ),
                }
            },
        }
    }

    /// Machine resumed by a failed host exchange.
    pub open spec fn failed_spec(self, id: HostRequestId, failure: HostRequestFailure) -> (
        MachineView,
        Result<(), HostCompletionError>,
    ) {
        match self.pending {
            None => (self, Err(HostCompletionError::NoPendingRequest)),
            Some(pending) => if pending.request.id != id {
                (
                    self,
                    Err(
                        HostCompletionError::RequestIdMismatch {
                            expected: pending.request.id,
                            actual: id,
                        },
                    ),
                )
            } else if pending.hart_id >= self.harts.len() {
                (
                    self,
                    Err(HostCompletionError::RequestHartUnavailable { hart_id: pending.hart_id }),
                )
            } else {
                let switched = MachineView { active: pending.hart_id as int, ..self };
                let code = match failure {
                    HostRequestFailure::Failed => SBI_ERR_FAILED,
                    HostRequestFailure::Denied => SBI_ERR_DENIED,
                };
                (
                    MachineView { pending: None, ..switched.set_reg(10, code).set_reg(11, 0) },
                    Ok(()),
                )
            },
        }
    }

    /// First hart whose mailbox holds unacknowledged control.
    pub open spec fn unsettled(self, from: nat) -> Option<int>
        decreases self.controls.len() - from,
    {
        if from >= self.controls.len() {
            None
        } else if !self.controls[from as int].quiescent() {
            Some(from as int)
        } else {
            self.unsettled(from + 1)
        }
    }

    /// What a prewarm checkpoint of this machine holds, or why there is none.
    pub open spec fn checkpoint_spec(self) -> Result<MachineView, CheckpointError> {
        if self.state != RunState::Runnable {
            Err(CheckpointError::NotRunnable)
        } else if self.pending is None {
            Err(CheckpointError::NoPendingHostRequest)
        } else if self.devices.input.len() > 0 {
            Err(
                CheckpointError::PendingConsoleInput { bytes: self.devices.input.len() as usize },
            )
        } else if self.devices.output.len() > 0 {
            Err(
                CheckpointError::UndrainedConsoleOutput {
                    bytes: self.devices.output.len() as usize,
                },
            )
        } else {
            match self.unsettled(0) {
                Some(id) => Err(CheckpointError::PendingHartControl { hart_id: id as usize }),
                None => Ok(self.cache_dropped()),
            }
        }
    }

    /// Machine whose active hart has forgotten its cached translations.
    pub open spec fn cache_dropped(self) -> MachineView {
        self.with_hart(HartState { translation_cache: TranslationCache::empty(), ..self.hart() })
    }
}

impl Machine {
    pub open spec fn view(&self) -> MachineView {
        MachineView {
            config: self.config,
            active: self.active_hart_id as int,
            harts: self.harts@,
            controls: self.hart_controls@,
            quantum: self.scheduler_quantum_remaining,
            devices: self.devices@,
            state: self.state,
            steps: self.steps_executed,
            retired: self.instructions_retired,
            firmware: self.firmware.enabled,
            next_id: self.next_host_request_id,
            pending: match self.pending_9p_request {
                Some(pending) => Some(pending@),
                None => None,
            },
            metrics: self.metrics,
        }
    }

    pub open spec fn wf(&self) -> bool {
        &&& admitted_config(self.config)
        &&& 1 <= self.hart_count <= MAX_HARTS
        &&& self.harts@.len() == self.hart_count
        &&& self.hart_controls@.len() == self.hart_count
        &&& self.active_hart_id < self.hart_count
        &&& self.devices.wf()
        &&& self.devices@.ram.len() == self.config.ram_bytes
        &&& self.devices.max_console_bytes == self.config.max_console_bytes
        &&& self.next_host_request_id != 0
        &&& self@.request_sound()
        &&& forall|i: int| 0 <= i < self.harts@.len() ==> (#[trigger] self.harts@[i]).wf()
    }

    /// Admit resources and construct a reset RV64 machine.
    pub fn new(config: MachineConfig) -> (r: Result<Self, MachineError>)
        ensures
            r matches Ok(machine) ==> machine.wf() && machine@ == MachineView::fresh(config, 1)
                && shape_error(config, 1) is None && machine.devices.ram.untouched(
                config.ram_bytes as int,
            ),
            r matches Err(error) ==> refusal(config, 1, error),
    {
        Machine::new_with_harts(config, 1)
    }

    /// Admit resources and construct a reset RV64 machine with an exact guest
    /// topology. This does not equate guest harts with native host workers.
    pub fn new_with_harts(config: MachineConfig, hart_count: usize) -> (r: Result<
        Self,
        MachineError,
    >)
        ensures
            r matches Ok(machine) ==> machine.wf() && machine@ == MachineView::fresh(
                config,
                hart_count as nat,
            ) && shape_error(config, hart_count) is None && machine.devices.ram.untouched(
                config.ram_bytes as int,
            ),
            r matches Err(error) ==> refusal(config, hart_count, error),
    {
        match refused_shape(config, hart_count) {
            Some(error) => Err(error),
            None => Machine::over(config, hart_count, Devices::new(config)),
        }
    }

    /// A reset machine of an admitted shape over the devices that were built
    /// for it, if they were.
    pub fn over(
        config: MachineConfig,
        hart_count: usize,
        devices: Result<Devices, MachineError>,
    ) -> (r: Result<Self, MachineError>)
        requires
            shape_error(config, hart_count) is None,
            devices matches Ok(devices) ==> devices.wf() && devices@ == DevicesView::fresh(config),
        ensures
            match (devices, r) {
                (Ok(devices), Ok(machine)) => machine.wf() && machine@ == MachineView::fresh(
                    config,
                    hart_count as nat,
                ) && machine.devices == devices,
                (Err(refused), Err(error)) => error == refused,
                _ => false,
            },
    {
        match devices {
            Ok(devices) => Ok(
                Machine {
                    config,
                    hart_count,
                    active_hart_id: 0,
                    harts: reset_hart_states(hart_count),
                    hart_controls: reset_hart_controls(hart_count),
                    scheduler_quantum_remaining: HART_SCHEDULER_QUANTUM,
                    devices,
                    state: RunState::Runnable,
                    steps_executed: 0,
                    instructions_retired: 0,
                    firmware: SbiFirmware { enabled: false },
                    next_host_request_id: 1,
                    pending_9p_request: None,
                    metrics: MachineMetrics::default(),
                },
            ),
            Err(error) => Err(error),
        }
    }

    /// Exact guest hart topology admitted for this machine.
    pub fn hart_count(&self) -> (r: usize)
        requires
            self.wf(),
        ensures
            r == self@.harts.len(),
    {
        self.hart_count
    }

    /// Hart whose architectural state is currently selected by the deterministic
    /// scheduler. This is guest topology, not a native worker index.
    pub fn active_hart_id(&self) -> (r: usize)
        ensures
            r == self@.active,
    {
        self.active_hart_id
    }

    pub(crate) fn reset_harts(&mut self)
        requires
            old(self).wf(),
        ensures
            final(self).wf(),
            final(self)@ == (MachineView {
                active: 0,
                harts: fresh_harts(old(self)@.harts.len()),
                controls: fresh_controls(old(self)@.harts.len()),
                quantum: HART_SCHEDULER_QUANTUM,
                ..old(self)@
            }),
            final(self).devices == old(self).devices,
    {
        self.active_hart_id = 0;
        self.harts = reset_hart_states(self.hart_count);
        self.hart_controls = reset_hart_controls(self.hart_count);
        self.scheduler_quantum_remaining = HART_SCHEDULER_QUANTUM;
    }

    pub fn hart_lifecycle(&self, hart_id: usize) -> (r: Option<HartLifecycle>)
        requires
            self.wf(),
        ensures
            r == self@.lifecycle_of(hart_id as int),
    {
        if hart_id < self.hart_controls.len() {
            Some(self.hart_controls[hart_id].lifecycle())
        } else {
            None
        }
    }

    pub fn set_hart_lifecycle(&mut self, hart_id: usize, lifecycle: HartLifecycle) -> (r: bool)
        requires
            old(self).wf(),
        ensures
            final(self).wf(),
            r == (hart_id < old(self)@.harts.len()),
            r ==> final(self)@ == old(self)@.lifecycle_set(hart_id as int, lifecycle),
            !r ==> final(self)@ == old(self)@,
    {
        if hart_id >= self.harts.len() {
            return false;
        }
        self.harts[hart_id].lifecycle = lifecycle;
        match lifecycle {
            HartLifecycle::Started => {
                self.hart_controls[hart_id].phase = ControlPhase::Started;
            },
            HartLifecycle::Stopped => {
                self.hart_controls[hart_id].stop();
            },
        }
        true
    }

    pub fn switch_active_hart(&mut self, hart_id: usize) -> (r: bool)
        requires
            old(self).wf(),
        ensures
            final(self).wf(),
            r == (hart_id < old(self)@.harts.len()),
            r ==> final(self)@ == (MachineView { active: hart_id as int, ..old(self)@ }),
            !r ==> final(self)@ == old(self)@,
    {
        if hart_id >= self.harts.len() {
            return false;
        }
        self.active_hart_id = hart_id;
        true
    }

    pub(crate) fn select_runnable_hart(&mut self) -> (r: bool)
        requires
            old(self).wf(),
        ensures
            final(self).wf(),
            match old(self)@.scheduled_spec() {
                Some(m) => r && final(self)@ == m,
                None => !r && final(self)@ == old(self)@,
            },
    {
        if self.harts[self.active_hart_id].lifecycle == HartLifecycle::Started
            && self.scheduler_quantum_remaining > 0 {
            return true;
        }
        let mut offset: usize = 1;
        while offset <= self.hart_count
            invariant
                self.wf(),
                self@ == old(self)@,
                !(self@.hart().lifecycle == HartLifecycle::Started && self@.quantum > 0),
                1 <= offset <= self.hart_count + 1,
                self@.next_started(1) == self@.next_started(offset as nat),
            decreases self.hart_count + 1 - offset,
        {
            let candidate: usize = (self.active_hart_id + offset) % self.hart_count;
            if self.hart_lifecycle(candidate) == Some(HartLifecycle::Started) {
                let _ = self.switch_active_hart(candidate);
                self.scheduler_quantum_remaining = HART_SCHEDULER_QUANTUM;
                return true;
            }
            offset = offset + 1;
        }
        false
    }

    /// Reset the machine and copy a raw RV64 image to the start of RAM.
    pub fn load_program(&mut self, program: &[u8]) -> (r: Result<(), MachineError>)
        requires
            old(self).wf(),
        ensures
            final(self).wf(),
            r is Ok <==> 0 < program@.len() <= old(self)@.config.ram_bytes,
            r is Ok ==> final(self)@ == old(self)@.loaded(program@),
            r is Ok ==> final(self).devices.ram.written() == ram::grown(
                Seq::new(old(self).devices.ram.chunks@.len(), |k: int| false),
                0,
                program@,
            ),
            r matches Err(error) ==> error == (MachineError::InvalidProgramBytes {
                image: program@.len() as usize,
                ram: old(self)@.config.ram_bytes,
            }) && final(self)@ == old(self)@,
    {
        if program.len() == 0 || program.len() > self.config.ram_bytes {
            return Err(
                MachineError::InvalidProgramBytes {
                    image: program.len(),
                    ram: self.config.ram_bytes,
                },
            );
        }
        self.devices.reset();
        self.reset_harts();
        let _ = self.devices.load_program(program);
        self.state = RunState::Runnable;
        self.steps_executed = 0;
        self.instructions_retired = 0;
        self.firmware = SbiFirmware { enabled: false };
        self.pending_9p_request = None;
        self.metrics = MachineMetrics::default();
        Ok(())
    }

    /// Add bytes that the guest may consume from the serial receive register.
    pub fn push_console_input(&mut self, bytes: &[u8])
        requires
            old(self).wf(),
        ensures
            final(self).wf(),
            final(self)@ == old(self)@.with_devices(
                DevicesView { input: old(self)@.devices.input + bytes@, ..old(self)@.devices },
            ),
    {
        let mut i: usize = 0;
        assert(self@.devices.input =~= old(self)@.devices.input + bytes@.subrange(0, 0));
        while i < bytes.len()
            invariant
                self.wf(),
                i <= bytes@.len(),
                self@ == old(self)@.with_devices(
                    DevicesView {
                        input: old(self)@.devices.input + bytes@.subrange(0, i as int),
                        ..old(self)@.devices
                    },
                ),
            decreases bytes@.len() - i,
        {
            self.devices.console_input.push_back(bytes[i]);
            i = i + 1;
            assert(self@.devices.input =~= old(self)@.devices.input + bytes@.subrange(0, i as int));
        }
        assert(bytes@.subrange(0, bytes@.len() as int) =~= bytes@);
    }

    /// Borrow an admitted physical RAM range for image measurement, snapshots,
    /// or differential verification. MMIO is never exposed as memory.
    pub fn physical_ram(&self, address: u64, bytes: usize) -> (r: Option<&[u8]>)
        requires
            self.wf(),
        ensures
            match (
                r,
                devices::ram_offset(self@.devices.ram.len() as int, address, bytes as int),
            ) {
                (Some(lent), Some(start)) => lent@ == self@.devices.ram.subrange(
                    start,
                    start + bytes,
                ),
                (None, None) => true,
                _ => false,
            },
    {
        match self.devices.ram_range_len(address, bytes) {
            Some(range) => self.devices.ram.slice(range),
            None => None,
        }
    }

    /// Copy a successful 9P response into the buffer admitted by the pending
    /// guest request and make the guest runnable again.
    pub fn complete_9p_request(&mut self, id: HostRequestId, response: &[u8]) -> (r: Result<
        (),
        HostCompletionError,
    >)
        requires
            old(self).wf(),
        ensures
            final(self).wf(),
            (final(self)@, r) == old(self)@.completed_spec(id, response@),
    {
        let (request_id, capacity, response_address, request_hart) = match &self.pending_9p_request {
            Some(pending) => (
                pending.request.id,
                pending.request.max_response_bytes,
                pending.response_address,
                pending.hart_id,
            ),
            None => {
                return Err(HostCompletionError::NoPendingRequest);
            },
        };
        if request_id != id {
            return Err(
                HostCompletionError::RequestIdMismatch { expected: request_id, actual: id },
            );
        }
        if response.len() < MIN_9P_MESSAGE_BYTES {
            return Err(HostCompletionError::InvalidResponseBytes(response.len()));
        }
        if response.len() > capacity {
            return Err(
                HostCompletionError::ResponseTooLarge { response: response.len(), capacity },
            );
        }
        if !self.switch_active_hart(request_hart) {
            return Err(HostCompletionError::RequestHartUnavailable { hart_id: request_hart });
        }
        if !self.devices.write_ram_slice(response_address, response) {
            return Err(HostCompletionError::ResponseAddressUnavailable);
        }
        let active: usize = self.active_hart_id;
        self.harts[active].cpu.write(10, SBI_SUCCESS);
        self.harts[active].cpu.write(11, response.len() as u64);
        self.pending_9p_request = None;
        Ok(())
    }

    /// Fail a pending 9P exchange without writing a guest response buffer.
    pub fn fail_9p_request(&mut self, id: HostRequestId, failure: HostRequestFailure) -> (r: Result<
        (),
        HostCompletionError,
    >)
        requires
            old(self).wf(),
        ensures
            final(self).wf(),
            (final(self)@, r) == old(self)@.failed_spec(id, failure),
    {
        let (request_id, request_hart) = match &self.pending_9p_request {
            Some(pending) => (pending.request.id, pending.hart_id),
            None => {
                return Err(HostCompletionError::NoPendingRequest);
            },
        };
        if request_id != id {
            return Err(
                HostCompletionError::RequestIdMismatch { expected: request_id, actual: id },
            );
        }
        if !self.switch_active_hart(request_hart) {
            return Err(HostCompletionError::RequestHartUnavailable { hart_id: request_hart });
        }
        let code: u64 = match failure {
            HostRequestFailure::Failed => SBI_ERR_FAILED,
            HostRequestFailure::Denied => SBI_ERR_DENIED,
        };
        let active: usize = self.active_hart_id;
        self.harts[active].cpu.write(10, code);
        self.harts[active].cpu.write(11, 0);
        self.pending_9p_request = None;
        Ok(())
    }

    /// Read one architectural integer register. Register zero is always zero.
    pub fn register(&self, register: usize) -> (r: Option<u64>)
        requires
            self.wf(),
        ensures
            r == (if register < 32 {
                Some(self@.reg(register as int))
            } else {
                None
            }),
            register == 0 ==> r == Some(0u64),
    {
        if register < 32 {
            Some(self.harts[self.active_hart_id].cpu.read(register))
        } else {
            None
        }
    }

    pub fn read_device(&mut self, address: u64, bytes: u8) -> (r: Result<u64, MachineTrap>)
        requires
            old(self).wf(),
        ensures
            final(self).wf(),
            (final(self)@, r) == old(self)@.read_device_spec(address, bytes),
    {
        if address >= CLINT_BASE && address - CLINT_BASE < CLINT_SIZE {
            let offset: u64 = address - CLINT_BASE;
            let active: usize = self.active_hart_id;
            if offset == CLINT_MSIP && bytes == 4 {
                return Ok(
                    if self.harts[active].msip {
                        1
                    } else {
                        0
                    },
                );
            }
            if offset == CLINT_MTIMECMP && bytes == 8 {
                return Ok(self.harts[active].timer_deadline);
            }
            if offset == CLINT_MTIME && bytes == 8 {
                return Ok(self.devices.mtime);
            }
            return Err(MachineTrap::LoadAccessFault { address, bytes });
        }
        self.devices.read(address, bytes)
    }

    pub fn write_device(&mut self, address: u64, value: u64, bytes: u8) -> (r: Result<
        Option<HaltStatus>,
        MachineTrap,
    >)
        requires
            old(self).wf(),
        ensures
            final(self).wf(),
            (final(self)@, r) == old(self)@.write_device_spec(address, value, bytes),
    {
        if address >= CLINT_BASE && address - CLINT_BASE < CLINT_SIZE {
            let offset: u64 = address - CLINT_BASE;
            let active: usize = self.active_hart_id;
            if offset == CLINT_MSIP && bytes == 4 {
                self.harts[active].msip = value & 1 != 0;
                return Ok(None);
            }
            if offset == CLINT_MTIMECMP && bytes == 8 {
                self.harts[active].timer_deadline = value;
                return Ok(None);
            }
            if offset == CLINT_MTIME && bytes == 8 {
                self.devices.mtime = value;
                return Ok(None);
            }
            return Err(MachineTrap::StoreAccessFault { address, bytes });
        }
        self.devices.write(address, value, bytes)
    }

    /// Current guest program counter.
    pub fn pc(&self) -> (r: u64)
        requires
            self.wf(),
        ensures
            r == self@.hart().cpu.pc,
    {
        self.harts[self.active_hart_id].cpu.pc
    }

    /// Current guest privilege level.
    pub fn privilege(&self) -> (r: Privilege)
        requires
            self.wf(),
        ensures
            r == self@.hart().cpu.privilege,
    {
        self.harts[self.active_hart_id].cpu.privilege
    }

    /// Read an implemented architectural CSR without bypassing the typed set.
    pub fn csr(&self, csr: Csr) -> (r: u64)
        requires
            self.wf(),
        ensures
            r == self@.csr_spec(csr),
    {
        let hart = &self.harts[self.active_hart_id];
        match csr {
            Csr::Cycle | Csr::Mcycle => hart.cycle,
            Csr::Time => self.devices.mtime,
            Csr::Instret | Csr::Minstret => hart.instret,
            Csr::Mhartid => self.active_hart_id as u64,
            _ => hart.csrs.read(csr),
        }
    }

    /// Return cumulative interpreter measurements for this image.
    pub fn metrics(&self) -> (r: MachineMetrics)
        ensures
            r == self@.metrics,
    {
        self.metrics
    }

    /// An exact copy.
    pub fn duplicate(&self) -> (r: Self)
        requires
            self.wf(),
        ensures
            r.wf(),
            r@ == self@,
    {
        let mut harts: Vec<HartState> = Vec::new();
        let mut hart_controls: Vec<HartControl> = Vec::new();
        let mut i: usize = 0;
        while i < self.hart_count
            invariant
                self.wf(),
                i <= self.hart_count,
                harts@ == self.harts@.subrange(0, i as int),
                hart_controls@ == self.hart_controls@.subrange(0, i as int),
            decreases self.hart_count - i,
        {
            harts.push(self.harts[i]);
            hart_controls.push(self.hart_controls[i]);
            i = i + 1;
            assert(harts@ =~= self.harts@.subrange(0, i as int));
            assert(hart_controls@ =~= self.hart_controls@.subrange(0, i as int));
        }
        assert(harts@ =~= self.harts@);
        assert(hart_controls@ =~= self.hart_controls@);
        let pending_9p_request = match &self.pending_9p_request {
            Some(pending) => Some(
                PendingPlan9Request {
                    request: pending.request.duplicate(),
                    response_address: pending.response_address,
                    hart_id: pending.hart_id,
                },
            ),
            None => None,
        };
        Machine {
            config: self.config,
            hart_count: self.hart_count,
            active_hart_id: self.active_hart_id,
            harts,
            hart_controls,
            scheduler_quantum_remaining: self.scheduler_quantum_remaining,
            devices: self.devices.duplicate(),
            state: self.state,
            steps_executed: self.steps_executed,
            instructions_retired: self.instructions_retired,
            firmware: self.firmware,
            next_host_request_id: self.next_host_request_id,
            pending_9p_request,
            metrics: self.metrics,
        }
    }

    pub(crate) fn drop_active_cache(&mut self)
        requires
            old(self).wf(),
        ensures
            final(self).wf(),
            final(self)@ == old(self)@.cache_dropped(),
            final(self).pending_9p_request == old(self).pending_9p_request,
    {
        let active: usize = self.active_hart_id;
        self.harts[active].translation_cache.clear();
    }

    /// Capture a reusable prewarm point at a drained, input-free host
    /// suspension. The pending request is retained and must be completed by a
    /// fresh principal-scoped provider after every restore.
    pub fn checkpoint_host_suspension(&self) -> (r: Result<MachineCheckpoint, CheckpointError>)
        requires
            self.wf(),
        ensures
            match (self@.checkpoint_spec(), r) {
                (Ok(m), Ok(checkpoint)) => checkpoint.wf() && checkpoint@ == m,
                (Err(expected), Err(error)) => error == expected,
                _ => false,
            },
    {
        match self.state {
            RunState::Runnable => {},
            _ => {
                return Err(CheckpointError::NotRunnable);
            },
        }
        if self.pending_9p_request.is_none() {
            return Err(CheckpointError::NoPendingHostRequest);
        }
        if self.devices.console_input.len() > 0 {
            return Err(
                CheckpointError::PendingConsoleInput { bytes: self.devices.console_input.len() },
            );
        }
        if self.devices.console_output.len() > 0 {
            return Err(
                CheckpointError::UndrainedConsoleOutput {
                    bytes: self.devices.console_output.len(),
                },
            );
        }
        let mut i: usize = 0;
        while i < self.hart_controls.len()
            invariant
                i <= self.hart_controls@.len(),
                self.hart_controls@.len() <= MAX_HARTS,
                self@.state == RunState::Runnable,
                self@.pending is Some,
                self@.devices.input.len() == 0,
                self@.devices.output.len() == 0,
                self@.unsettled(0) == self@.unsettled(i as nat),
            decreases self.hart_controls@.len() - i,
        {
            if !self.hart_controls[i].is_quiescent() {
                return Err(CheckpointError::PendingHartControl { hart_id: i });
            }
            i = i + 1;
        }
        let mut machine = self.duplicate();
        machine.drop_active_cache();
        Ok(MachineCheckpoint { machine })
    }

    /// Acknowledges everything in one hart's mailbox.
    pub fn apply_hart_control(&mut self, hart_id: usize) -> (r: bool)
        requires
            old(self).wf(),
        ensures
            final(self).wf(),
            r == (hart_id < old(self)@.harts.len()),
            r ==> final(self)@ == old(self)@.control_applied(hart_id as int),
            !r ==> final(self)@ == old(self)@,
    {
        if hart_id >= self.hart_controls.len() {
            return false;
        }
        let mut control: HartControl = self.hart_controls[hart_id];
        let pending_start = control.pending_start();
        let pending_interrupts: u64 = control.take_interrupts();
        let pending_fence = control.pending_fence();
        if let Some((start_address, opaque, generation)) = pending_start {
            self.harts[hart_id].start_at(hart_id, start_address, opaque);
            control.acknowledge_start(generation);
        }
        let pending: u64 = self.harts[hart_id].csrs.mip | pending_interrupts;
        self.harts[hart_id].csrs.mip = pending;
        if let Some(generation) = pending_fence {
            self.harts[hart_id].translation_cache.clear();
            self.metrics.translation_cache_flushes =
            self.metrics.translation_cache_flushes.saturating_add(1);
            control.acknowledge_fence(generation);
        }
        self.hart_controls[hart_id] = control;
        assert(self.harts@ =~= old(self)@.control_applied(hart_id as int).harts);
        true
    }
}

/// The first rule that a machine of this shape breaks.
pub open spec fn shape_error(config: MachineConfig, hart_count: usize) -> Option<MachineError> {
    if config.ram_bytes < MIN_RAM_BYTES || config.ram_bytes > MAX_RAM_BYTES || config.ram_bytes
        % MIN_RAM_BYTES != 0 {
        Some(MachineError::InvalidRamBytes(config.ram_bytes))
    } else if config.max_console_bytes > MAX_CONSOLE_BYTES {
        Some(MachineError::InvalidConsoleBytes(config.max_console_bytes))
    } else if hart_count < 1 || hart_count > MAX_HARTS {
        Some(MachineError::InvalidHartCount(hart_count))
    } else {
        None
    }
}

/// Why a machine of this shape is not built: the first rule it breaks, or the
/// allocator's refusal when it breaks none.
pub open spec fn refusal(config: MachineConfig, hart_count: usize, error: MachineError) -> bool {
    error == (match shape_error(config, hart_count) {
        Some(broken) => broken,
        None => MachineError::RamAllocationDenied(config.ram_bytes),
    })
}

/// The first rule that a machine of this shape breaks.
pub fn refused_shape(config: MachineConfig, hart_count: usize) -> (r: Option<MachineError>)
    ensures
        r == shape_error(config, hart_count),
{
    if config.ram_bytes < MIN_RAM_BYTES || config.ram_bytes > MAX_RAM_BYTES || config.ram_bytes
        % MIN_RAM_BYTES != 0 {
        return Some(MachineError::InvalidRamBytes(config.ram_bytes));
    }
    if config.max_console_bytes > MAX_CONSOLE_BYTES {
        return Some(MachineError::InvalidConsoleBytes(config.max_console_bytes));
    }
    if hart_count < 1 || hart_count > MAX_HARTS {
        return Some(MachineError::InvalidHartCount(hart_count));
    }
    None
}

fn reset_hart_states(count: usize) -> (r: Vec<HartState>)
    ensures
        r@ == fresh_harts(count as nat),
        forall|i: int| 0 <= i < r@.len() ==> (#[trigger] r@[i]).wf(),
{
    let mut harts: Vec<HartState> = Vec::new();
    let mut i: usize = 0;
    while i < count
        invariant
            i <= count,
            harts@ == fresh_harts(i as nat),
            forall|k: int| 0 <= k < harts@.len() ==> (#[trigger] harts@[k]).wf(),
        decreases count - i,
    {
        let lifecycle = if i == 0 {
            HartLifecycle::Started
        } else {
            HartLifecycle::Stopped
        };
        harts.push(HartState::new(i, lifecycle));
        i = i + 1;
        assert(harts@ =~= fresh_harts(i as nat));
    }
    harts
}

fn reset_hart_controls(count: usize) -> (r: Vec<HartControl>)
    ensures
        r@ == fresh_controls(count as nat),
{
    let mut controls: Vec<HartControl> = Vec::new();
    let mut i: usize = 0;
    while i < count
        invariant
            i <= count,
            controls@ == fresh_controls(i as nat),
        decreases count - i,
    {
        let lifecycle = if i == 0 {
            HartLifecycle::Started
        } else {
            HartLifecycle::Stopped
        };
        controls.push(HartControl::new(lifecycle));
        i = i + 1;
        assert(controls@ =~= fresh_controls(i as nat));
    }
    controls
}

/// Opaque, reusable copy of a machine stopped before a host effect completes.
///
/// This in-memory type establishes the checkpoint safety boundary. Its durable
/// codec additionally binds bytes to the machine model, Linux image and
/// distribution generation.
#[derive(Debug)]
pub struct MachineCheckpoint {
    pub machine: Machine,
}

impl MachineCheckpoint {
    pub open spec fn view(&self) -> MachineView {
        self.machine@
    }

    pub open spec fn wf(&self) -> bool {
        &&& self.machine.wf()
        &&& self.machine.pending_9p_request is Some
    }

    /// Exact RAM envelope encoded by this checkpoint.
    pub fn ram_bytes(&self) -> (r: usize)
        ensures
            r == self@.config.ram_bytes,
    {
        self.machine.config.ram_bytes
    }

    /// Exact retained-console envelope encoded by this checkpoint.
    pub fn max_console_bytes(&self) -> (r: usize)
        ensures
            r == self@.config.max_console_bytes,
    {
        self.machine.config.max_console_bytes
    }

    /// Exact logical CPU topology encoded by this checkpoint.
    pub fn hart_count(&self) -> (r: usize)
        requires
            self.wf(),
        ensures
            r == self@.harts.len(),
    {
        self.machine.hart_count
    }

    /// Host request that every restored machine must complete through a newly
    /// admitted principal-scoped provider.
    pub fn pending_host_request(&self) -> (r: &Plan9Request)
        requires
            self.wf(),
        ensures
            Some(r@) == self@.pending_request(),
    {
        match &self.machine.pending_9p_request {
            Some(pending) => &pending.request,
            None => vstd::pervasive::unreached(),
        }
    }

    /// Instantiate an isolated machine with the exact suspended guest state.
    pub fn restore(&self) -> (r: Machine)
        requires
            self.wf(),
        ensures
            r.wf(),
            r@ == self@.cache_dropped(),
    {
        let mut machine = self.machine.duplicate();
        machine.drop_active_cache();
        machine
    }

    /// Consume the checkpoint without cloning its admitted RAM.
    pub fn into_machine(self) -> (r: Machine)
        requires
            self.wf(),
        ensures
            r.wf(),
            r@ == self@.cache_dropped(),
    {
        let mut machine = self.machine;
        machine.drop_active_cache();
        machine
    }
}

impl MachineView {
    pub open spec fn pending_request(self) -> Option<Plan9RequestView> {
        match self.pending {
            Some(pending) => Some(pending.request),
            None => None,
        }
    }
}

} // verus!
