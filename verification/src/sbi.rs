//! The supervisor binary interface that the machine offers as its firmware.

use crate::devices;
use crate::devices::DevicesView;
use crate::hart::{ControlPhase, HartControl, HartLifecycle, HartState};
use crate::isa::{MachineTrap, MIP_SSIP, MIP_STIP};
use crate::machine::{
    Machine, MachineView, PendingPlan9Request, PendingView, Plan9Request, Plan9RequestView,
};
use crate::platform::{
    HaltStatus, HostRequestId, MAX_9P_MESSAGE_BYTES, MIN_9P_MESSAGE_BYTES, SBI_AOS_PRIVATE_IMPL_ID,
    SBI_ERR_ALREADY_AVAILABLE, SBI_ERR_FAILED, SBI_ERR_INVALID_ADDRESS, SBI_ERR_INVALID_PARAM,
    SBI_ERR_NOT_SUPPORTED, SBI_EXT_AOS_9P, SBI_EXT_BASE, SBI_EXT_DBCN, SBI_EXT_HSM, SBI_EXT_IPI,
    SBI_EXT_RFENCE, SBI_EXT_SRST, SBI_EXT_TIME, SBI_HART_STATE_STARTED, SBI_HART_STATE_STOPPED,
    SBI_SPEC_VERSION_3_0, SBI_SUCCESS,
};
use crate::ram;
use vstd::prelude::*;

verus! {

/// Error code and value returned in `a0` and `a1`.
pub type Reply = (u64, u64);

pub open spec fn extension_known(extension: u64) -> bool {
    extension == SBI_EXT_BASE || extension == SBI_EXT_TIME || extension == SBI_EXT_IPI || extension
        == SBI_EXT_RFENCE || extension == SBI_EXT_HSM || extension == SBI_EXT_DBCN || extension
        == SBI_EXT_SRST || extension == SBI_EXT_AOS_9P
}

fn knows_extension(extension: u64) -> (r: bool)
    ensures
        r == extension_known(extension),
{
    extension == SBI_EXT_BASE || extension == SBI_EXT_TIME || extension == SBI_EXT_IPI || extension
        == SBI_EXT_RFENCE || extension == SBI_EXT_HSM || extension == SBI_EXT_DBCN || extension
        == SBI_EXT_SRST || extension == SBI_EXT_AOS_9P
}

/// Reply of the base extension to a known function.
pub open spec fn base_spec(function: u64, argument: u64) -> Reply {
    if function == 0 {
        (SBI_SUCCESS, SBI_SPEC_VERSION_3_0)
    } else if function == 1 {
        (SBI_SUCCESS, SBI_AOS_PRIVATE_IMPL_ID)
    } else if function == 2 {
        (SBI_SUCCESS, 1)
    } else if function == 3 {
        (
            SBI_SUCCESS,
            if extension_known(argument) {
                1
            } else {
                0
            },
        )
    } else if function <= 6 {
        (SBI_SUCCESS, 0)
    } else {
        (SBI_ERR_NOT_SUPPORTED, 0)
    }
}

fn base_reply(function: u64, argument: u64) -> (r: Reply)
    ensures
        r == base_spec(function, argument),
{
    if function == 0 {
        (SBI_SUCCESS, SBI_SPEC_VERSION_3_0)
    } else if function == 1 {
        (SBI_SUCCESS, SBI_AOS_PRIVATE_IMPL_ID)
    } else if function == 2 {
        (SBI_SUCCESS, 1)
    } else if function == 3 {
        (
            SBI_SUCCESS,
            if knows_extension(argument) {
                1
            } else {
                0
            },
        )
    } else if function <= 6 {
        (SBI_SUCCESS, 0)
    } else {
        (SBI_ERR_NOT_SUPPORTED, 0)
    }
}

pub open spec fn mask_bit(mask: u64, bit: int) -> bool {
    mask & (1u64 << (bit as u64)) != 0
}

impl MachineView {
    pub open spec fn started(self, id: int) -> bool {
        self.lifecycle_of(id) == Some(HartLifecycle::Started)
    }

    /// The started harts below `upto`, in order.
    pub open spec fn started_below(self, upto: nat) -> Seq<int>
        decreases upto,
    {
        if upto == 0 {
            Seq::empty()
        } else if self.started(upto - 1) {
            self.started_below((upto - 1) as nat).push(upto - 1)
        } else {
            self.started_below((upto - 1) as nat)
        }
    }

    /// The harts named by the bits of a mask below `upto`, in order.
    pub open spec fn masked_below(mask: u64, base: int, upto: nat) -> Seq<int>
        decreases upto,
    {
        if upto == 0 {
            Seq::empty()
        } else if mask_bit(mask, upto - 1) {
            MachineView::masked_below(mask, base, (upto - 1) as nat).push(base + upto - 1)
        } else {
            MachineView::masked_below(mask, base, (upto - 1) as nat)
        }
    }

    /// Harts that a mask and its base select: all started ones for the all-ones
    /// base, otherwise exactly the named ones, each of which must be started.
    pub open spec fn selected_spec(self, mask: u64, base: u64) -> Result<Seq<int>, u64> {
        if base == u64::MAX {
            Ok(self.started_below(self.harts.len()))
        } else if base > usize::MAX || exists|bit: int|
            0 <= bit < 64 && #[trigger] mask_bit(mask, bit) && !self.started(base + bit) {
            Err(SBI_ERR_INVALID_PARAM)
        } else {
            Ok(MachineView::masked_below(mask, base as int, 64))
        }
    }

    pub open spec fn with_control(self, id: int, control: HartControl) -> MachineView {
        MachineView { controls: self.controls.update(id, control), ..self }
    }

    /// Machine after one hart takes a software interrupt.
    pub open spec fn poked(self, id: int) -> MachineView {
        let control = self.controls[id];
        self.with_control(
            id,
            HartControl {
                pending_interrupts: control.pending_interrupts | MIP_SSIP,
                ..control
            },
        ).control_applied(id)
    }

    /// Machine after one hart drops its translations.
    pub open spec fn fenced(self, id: int) -> MachineView {
        let control = self.controls[id];
        self.with_control(
            id,
            HartControl { fence_generation: control.fence_generation.wrapping_add(1), ..control },
        ).control_applied(id)
    }

    pub open spec fn poked_all(self, ids: Seq<int>, count: nat) -> MachineView
        decreases count,
    {
        if count == 0 {
            self
        } else {
            self.poked_all(ids, (count - 1) as nat).poked(ids[count - 1])
        }
    }

    pub open spec fn fenced_all(self, ids: Seq<int>, count: nat) -> MachineView
        decreases count,
    {
        if count == 0 {
            self
        } else {
            self.fenced_all(ids, (count - 1) as nat).fenced(ids[count - 1])
        }
    }

    pub open spec fn send_ipi_spec(self, mask: u64, base: u64) -> (MachineView, Reply) {
        match self.selected_spec(mask, base) {
            Ok(ids) => (self.poked_all(ids, ids.len()), (SBI_SUCCESS, 0)),
            Err(error) => (self, (error, 0)),
        }
    }

    pub open spec fn remote_fence_spec(self, function: u64, mask: u64, base: u64) -> (
        MachineView,
        Reply,
    ) {
        if function > 2 {
            (self, (SBI_ERR_NOT_SUPPORTED, 0))
        } else {
            match self.selected_spec(mask, base) {
                Ok(ids) => if function == 0 {
                    (self, (SBI_SUCCESS, 0))
                } else {
                    (self.fenced_all(ids, ids.len()), (SBI_SUCCESS, 0))
                },
                Err(error) => (self, (error, 0)),
            }
        }
    }

    pub open spec fn hart_start_spec(self, id: u64, address: u64, opaque: u64) -> (
        MachineView,
        Reply,
    ) {
        if id >= self.harts.len() {
            (self, (SBI_ERR_INVALID_PARAM, 0))
        } else if self.started(id as int) {
            (self, (SBI_ERR_ALREADY_AVAILABLE, 0))
        } else if address & 1 != 0 || devices::ram_offset(
            self.devices.ram.len() as int,
            address,
            2,
        ) is None {
            (self, (SBI_ERR_INVALID_ADDRESS, 0))
        } else if self.controls[id as int].phase != ControlPhase::Stopped {
            (self, (SBI_ERR_ALREADY_AVAILABLE, 0))
        } else {
            (
                self.with_control(
                    id as int,
                    self.controls[id as int].start_requested(address, opaque),
                ).control_applied(id as int),
                (SBI_SUCCESS, 0),
            )
        }
    }

    pub open spec fn hart_status_spec(self, id: u64) -> Reply {
        match self.lifecycle_of(id as int) {
            Some(HartLifecycle::Started) => (SBI_SUCCESS, SBI_HART_STATE_STARTED),
            Some(HartLifecycle::Stopped) => (SBI_SUCCESS, SBI_HART_STATE_STOPPED),
            None => (SBI_ERR_INVALID_PARAM, 0),
        }
    }

    /// Console output of as many bytes of a RAM range as the ceiling admits.
    pub open spec fn console_write_spec(self, bytes: u64, address: u64, high: u64) -> (
        MachineView,
        Reply,
    ) {
        match devices::ram_offset(self.devices.ram.len() as int, address, bytes as int) {
            Some(start) if high == 0 => {
                let room = if self.devices.output.len() < self.devices.limit {
                    self.devices.limit - self.devices.output.len()
                } else {
                    0
                };
                let written = if bytes < room {
                    bytes as int
                } else {
                    room
                };
                (
                    self.with_devices(
                        DevicesView {
                            output: self.devices.output + self.devices.ram.subrange(
                                start,
                                start + written,
                            ),
                            ..self.devices
                        },
                    ),
                    (SBI_SUCCESS, written as u64),
                )
            },
            _ => (self, (SBI_ERR_INVALID_ADDRESS, 0)),
        }
    }

    /// Console input moved into a RAM range, as far as both go.
    pub open spec fn console_read_spec(self, bytes: u64, address: u64, high: u64) -> (
        MachineView,
        Reply,
    ) {
        match devices::ram_offset(self.devices.ram.len() as int, address, bytes as int) {
            Some(start) if high == 0 => {
                let count = if bytes < self.devices.input.len() {
                    bytes as int
                } else {
                    self.devices.input.len() as int
                };
                (
                    self.with_devices(
                        DevicesView {
                            ram: ram::splice(
                                self.devices.ram,
                                start,
                                self.devices.input.subrange(0, count),
                            ),
                            input: self.devices.input.subrange(
                                count,
                                self.devices.input.len() as int,
                            ),
                            ..self.devices
                        },
                    ),
                    (SBI_SUCCESS, count as u64),
                )
            },
            _ => (self, (SBI_ERR_INVALID_ADDRESS, 0)),
        }
    }

    /// A guest 9P exchange: refused at once, or left pending for the host.
    pub open spec fn exchange_spec(
        self,
        request: u64,
        request_bytes: u64,
        response: u64,
        response_bytes: u64,
        channel: u64,
        flags: u64,
    ) -> (MachineView, Option<Reply>) {
        let length = self.devices.ram.len() as int;
        if self.pending is Some {
            (self, Some((SBI_ERR_ALREADY_AVAILABLE, 0)))
        } else if channel > u32::MAX || channel == 0 || flags != 0 || !(MIN_9P_MESSAGE_BYTES
            <= request_bytes <= MAX_9P_MESSAGE_BYTES) || !(MIN_9P_MESSAGE_BYTES <= response_bytes
            <= MAX_9P_MESSAGE_BYTES) {
            (self, Some((SBI_ERR_INVALID_PARAM, 0)))
        } else {
            match devices::ram_offset(length, request, request_bytes as int) {
                None => (self, Some((SBI_ERR_INVALID_ADDRESS, 0))),
                Some(start) => if devices::ram_offset(
                    length,
                    response,
                    response_bytes as int,
                ) is None {
                    (self, Some((SBI_ERR_INVALID_ADDRESS, 0)))
                } else if self.next_id == u64::MAX {
                    (self, Some((SBI_ERR_FAILED, 0)))
                } else {
                    (
                        MachineView {
                            next_id: (self.next_id + 1) as u64,
                            pending: Some(
                                PendingView {
                                    request: Plan9RequestView {
                                        id: HostRequestId(self.next_id),
                                        channel: channel as u32,
                                        message: self.devices.ram.subrange(
                                            start,
                                            start + request_bytes,
                                        ),
                                        max_response_bytes: response_bytes as usize,
                                    },
                                    response_address: response,
                                    hart_id: self.active as usize,
                                },
                            ),
                            ..self
                        },
                        None,
                    )
                },
            }
        }
    }

    pub open spec fn replied(self, reply: Reply) -> MachineView {
        self.set_reg(10, reply.0).set_reg(11, reply.1)
    }

    /// Timer deadline set by the guest, which also clears its pending tick.
    pub open spec fn timer_set(self, deadline: u64) -> MachineView {
        let hart = self.hart();
        self.with_hart(
            HartState {
                timer_deadline: deadline,
                csrs: crate::cpu::CsrFile { mip: hart.csrs.mip & !MIP_STIP, ..hart.csrs },
                ..hart
            },
        )
    }

    /// Effect of one firmware call by the active hart.
    #[verifier::opaque]
    pub open spec fn sbi_spec(self) -> (MachineView, Result<Option<HaltStatus>, MachineTrap>) {
        let extension = self.reg(17);
        let function = self.reg(16);
        let a0 = self.reg(10);
        let a1 = self.reg(11);
        let a2 = self.reg(12);
        let unsupported = (self.replied((SBI_ERR_NOT_SUPPORTED, 0)), Ok(None));
        if extension == SBI_EXT_BASE {
            (self.replied(base_spec(function, a0)), Ok(None))
        } else if extension == SBI_EXT_TIME && function == 0 {
            (self.timer_set(a0).replied((SBI_SUCCESS, 0)), Ok(None))
        } else if extension == SBI_EXT_IPI && function == 0 {
            let (after, reply) = self.send_ipi_spec(a0, a1);
            (after.replied(reply), Ok(None))
        } else if extension == SBI_EXT_RFENCE {
            let (after, reply) = self.remote_fence_spec(function, a0, a1);
            (after.replied(reply), Ok(None))
        } else if extension == SBI_EXT_HSM && function == 0 {
            let (after, reply) = self.hart_start_spec(a0, a1, a2);
            (after.replied(reply), Ok(None))
        } else if extension == SBI_EXT_HSM && function == 1 {
            (self.lifecycle_set(self.active, HartLifecycle::Stopped), Ok(None))
        } else if extension == SBI_EXT_HSM && function == 2 {
            (self.replied(self.hart_status_spec(a0)), Ok(None))
        } else if extension == SBI_EXT_DBCN && function == 0 {
            let (after, reply) = self.console_write_spec(a0, a1, a2);
            (after.replied(reply), Ok(None))
        } else if extension == SBI_EXT_DBCN && function == 1 {
            let (after, reply) = self.console_read_spec(a0, a1, a2);
            (after.replied(reply), Ok(None))
        } else if extension == SBI_EXT_DBCN && function == 2 {
            let (devices, pushed) = self.devices.push_spec(a0 as u8);
            match pushed {
                Ok(_) => (self.with_devices(devices).replied((SBI_SUCCESS, 0)), Ok(None)),
                Err(trap) => (self.with_devices(devices), Err(trap)),
            }
        } else if extension == SBI_EXT_SRST && function == 0 {
            if a0 <= 2 && a1 <= 1 {
                (
                    self.replied((SBI_SUCCESS, 0)),
                    Ok(
                        Some(
                            HaltStatus {
                                passed: a0 == 0 && a1 == 0,
                                code: ((a0 as u32) << 16) | a1 as u32,
                            },
                        ),
                    ),
                )
            } else {
                (self.replied((SBI_ERR_INVALID_PARAM, 0)), Ok(None))
            }
        } else if extension == SBI_EXT_AOS_9P && function == 0 {
            let (after, reply) = self.exchange_spec(
                a0,
                a1,
                a2,
                self.reg(13),
                self.reg(14),
                self.reg(15),
            );
            match reply {
                Some(reply) => (after.replied(reply), Ok(None)),
                None => (after, Ok(None)),
            }
        } else {
            unsupported
        }
    }
}

impl Machine {
    fn reply(&mut self, reply: Reply)
        requires
            old(self).wf(),
        ensures
            final(self).wf(),
            final(self)@ == old(self)@.replied(reply),
    {
        self.write_reg(10, reply.0);
        self.write_reg(11, reply.1);
    }

    /// Harts that an interprocessor call names.
    pub fn selected_started_harts(&self, hart_mask: u64, hart_mask_base: u64) -> (r: Result<
        Vec<usize>,
        u64,
    >)
        requires
            self.wf(),
        ensures
            match (r, self@.selected_spec(hart_mask, hart_mask_base)) {
                (Ok(selected), Ok(ids)) => {
                    &&& selected@.len() == ids.len()
                    &&& forall|k: int|
                        0 <= k < ids.len() ==> (#[trigger] selected@[k]) as int == ids[k]
                            && selected@[k] < self@.harts.len()
                },
                (Err(error), Err(expected)) => error == expected,
                _ => false,
            },
    {
        let mut selected: Vec<usize> = Vec::new();
        if hart_mask_base == u64::MAX {
            let mut id: usize = 0;
            while id < self.hart_count
                invariant
                    self.wf(),
                    id <= self.hart_count,
                    selected@.len() == self@.started_below(id as nat).len(),
                    forall|k: int|
                        0 <= k < selected@.len() ==> (#[trigger] selected@[k]) as int
                            == self@.started_below(id as nat)[k] && selected@[k]
                            < self@.harts.len(),
                decreases self.hart_count - id,
            {
                if let Some(HartLifecycle::Started) = self.hart_lifecycle(id) {
                    selected.push(id);
                }
                id = id + 1;
            }
            return Ok(selected);
        }
        if hart_mask_base > usize::MAX as u64 {
            return Err(SBI_ERR_INVALID_PARAM);
        }
        let mut bit: u64 = 0;
        while bit < 64
            invariant
                self.wf(),
                bit <= 64,
                hart_mask_base <= usize::MAX,
                hart_mask_base != u64::MAX,
                forall|b: int|
                    0 <= b < bit && #[trigger] mask_bit(hart_mask, b) ==> self@.started(
                        hart_mask_base + b,
                    ),
                selected@.len() == MachineView::masked_below(
                    hart_mask,
                    hart_mask_base as int,
                    bit as nat,
                ).len(),
                forall|k: int|
                    0 <= k < selected@.len() ==> (#[trigger] selected@[k]) as int
                        == MachineView::masked_below(
                        hart_mask,
                        hart_mask_base as int,
                        bit as nat,
                    )[k] && selected@[k] < self@.harts.len(),
            decreases 64 - bit,
        {
            if hart_mask & (1u64 << bit) != 0 {
                assert(mask_bit(hart_mask, bit as int));
                if hart_mask_base > usize::MAX as u64 - bit {
                    return Err(SBI_ERR_INVALID_PARAM);
                }
                let id: usize = (hart_mask_base + bit) as usize;
                match self.hart_lifecycle(id) {
                    Some(HartLifecycle::Started) => {
                        selected.push(id);
                    },
                    _ => {
                        return Err(SBI_ERR_INVALID_PARAM);
                    },
                }
            }
            bit = bit + 1;
        }
        Ok(selected)
    }

    pub fn sbi_send_ipi(&mut self, mask: u64, base: u64) -> (r: Reply)
        requires
            old(self).wf(),
        ensures
            final(self).wf(),
            (final(self)@, r) == old(self)@.send_ipi_spec(mask, base),
    {
        let selected = match self.selected_started_harts(mask, base) {
            Ok(selected) => selected,
            Err(error) => {
                return (error, 0);
            },
        };
        let ghost ids = self@.selected_spec(mask, base)->Ok_0;
        let mut k: usize = 0;
        while k < selected.len()
            invariant
                self.wf(),
                k <= selected@.len(),
                selected@.len() == ids.len(),
                self@ == old(self)@.poked_all(ids, k as nat),
                self@.harts.len() == old(self)@.harts.len(),
                forall|j: int|
                    0 <= j < ids.len() ==> (#[trigger] selected@[j]) as int == ids[j]
                        && selected@[j] < old(self)@.harts.len(),
            decreases selected@.len() - k,
        {
            let id: usize = selected[k];
            let ghost before = self@;
            self.hart_controls[id].raise_interrupt(MIP_SSIP);
            assert(self@ =~= before.with_control(
                id as int,
                HartControl {
                    pending_interrupts: before.controls[id as int].pending_interrupts | MIP_SSIP,
                    ..before.controls[id as int]
                },
            ));
            self.apply_hart_control(id);
            k = k + 1;
        }
        (SBI_SUCCESS, 0)
    }

    pub fn sbi_remote_fence(&mut self, function: u64, mask: u64, base: u64) -> (r: Reply)
        requires
            old(self).wf(),
        ensures
            final(self).wf(),
            (final(self)@, r) == old(self)@.remote_fence_spec(function, mask, base),
    {
        if function > 2 {
            return (SBI_ERR_NOT_SUPPORTED, 0);
        }
        let selected = match self.selected_started_harts(mask, base) {
            Ok(selected) => selected,
            Err(error) => {
                return (error, 0);
            },
        };
        if function == 0 {
            return (SBI_SUCCESS, 0);
        }
        let ghost ids = self@.selected_spec(mask, base)->Ok_0;
        let mut k: usize = 0;
        while k < selected.len()
            invariant
                self.wf(),
                k <= selected@.len(),
                selected@.len() == ids.len(),
                self@ == old(self)@.fenced_all(ids, k as nat),
                self@.harts.len() == old(self)@.harts.len(),
                forall|j: int|
                    0 <= j < ids.len() ==> (#[trigger] selected@[j]) as int == ids[j]
                        && selected@[j] < old(self)@.harts.len(),
            decreases selected@.len() - k,
        {
            let id: usize = selected[k];
            let ghost before = self@;
            self.hart_controls[id].request_fence();
            assert(self@ =~= before.with_control(
                id as int,
                HartControl {
                    fence_generation: before.controls[id as int].fence_generation.wrapping_add(1),
                    ..before.controls[id as int]
                },
            ));
            self.apply_hart_control(id);
            k = k + 1;
        }
        (SBI_SUCCESS, 0)
    }

    pub fn sbi_hart_start(&mut self, hart_id: u64, start_address: u64, opaque: u64) -> (r: Reply)
        requires
            old(self).wf(),
        ensures
            final(self).wf(),
            (final(self)@, r) == old(self)@.hart_start_spec(hart_id, start_address, opaque),
    {
        if hart_id >= self.hart_count as u64 {
            return (SBI_ERR_INVALID_PARAM, 0);
        }
        let id: usize = hart_id as usize;
        if let Some(HartLifecycle::Started) = self.hart_lifecycle(id) {
            return (SBI_ERR_ALREADY_AVAILABLE, 0);
        }
        if start_address & 1 != 0 || self.devices.ram_range(start_address, 2).is_none() {
            return (SBI_ERR_INVALID_ADDRESS, 0);
        }
        if self.hart_controls[id].request_start(start_address, opaque).is_err() {
            assert(self@.controls =~= old(self)@.controls);
            return (SBI_ERR_ALREADY_AVAILABLE, 0);
        }
        self.apply_hart_control(id);
        (SBI_SUCCESS, 0)
    }

    pub fn sbi_hart_status(&self, hart_id: u64) -> (r: Reply)
        requires
            self.wf(),
        ensures
            r == self@.hart_status_spec(hart_id),
    {
        if hart_id >= self.hart_count as u64 {
            return (SBI_ERR_INVALID_PARAM, 0);
        }
        match self.hart_lifecycle(hart_id as usize) {
            Some(HartLifecycle::Started) => (SBI_SUCCESS, SBI_HART_STATE_STARTED),
            Some(HartLifecycle::Stopped) => (SBI_SUCCESS, SBI_HART_STATE_STOPPED),
            None => (SBI_ERR_INVALID_PARAM, 0),
        }
    }

    pub fn sbi_debug_console_write(&mut self, bytes: u64, address: u64, high: u64) -> (r: Reply)
        requires
            old(self).wf(),
        ensures
            final(self).wf(),
            (final(self)@, r) == old(self)@.console_write_spec(bytes, address, high),
    {
        if high != 0 || bytes > self.devices.ram.len() as u64 {
            return (SBI_ERR_INVALID_ADDRESS, 0);
        }
        let range = match self.devices.ram_range_len(address, bytes as usize) {
            Some(range) => range,
            None => {
                return (SBI_ERR_INVALID_ADDRESS, 0);
            },
        };
        let room: usize = if self.devices.console_output.len() < self.devices.max_console_bytes {
            self.devices.max_console_bytes - self.devices.console_output.len()
        } else {
            0
        };
        let written: usize = if (bytes as usize) < room {
            bytes as usize
        } else {
            room
        };
        let start: usize = range.start;
        if let Some(output) = self.devices.ram.copy_to_vec(start..start + written) {
            let mut i: usize = 0;
            while i < written
                invariant
                    self.wf(),
                    i <= written,
                    output@.len() == written,
                    written > 0 ==> old(self)@.devices.output.len() + written <= old(
                        self,
                    )@.devices.limit,
                    self@ == old(self)@.with_devices(
                        (DevicesView {
                            output: old(self)@.devices.output + output@.subrange(0, i as int),
                            ..old(self)@.devices
                        }),
                    ),
                decreases written - i,
            {
                let ghost before = self@;
                let pushed = self.devices.push_console_output(output[i]);
                assert(pushed is Ok);
                assert(before.devices.output.push(output@[i as int]) =~= old(self)@.devices.output
                    + output@.subrange(0, i + 1));
                i = i + 1;
            }
            assert(output@.subrange(0, written as int) =~= output@);
        }
        (SBI_SUCCESS, written as u64)
    }

    pub fn sbi_debug_console_read(&mut self, bytes: u64, address: u64, high: u64) -> (r: Reply)
        requires
            old(self).wf(),
        ensures
            final(self).wf(),
            (final(self)@, r) == old(self)@.console_read_spec(bytes, address, high),
    {
        if high != 0 || bytes > self.devices.ram.len() as u64 {
            return (SBI_ERR_INVALID_ADDRESS, 0);
        }
        let range = match self.devices.ram_range_len(address, bytes as usize) {
            Some(range) => range,
            None => {
                return (SBI_ERR_INVALID_ADDRESS, 0);
            },
        };
        let start: usize = range.start;
        let count: usize = if (bytes as usize) < self.devices.console_input.len() {
            bytes as usize
        } else {
            self.devices.console_input.len()
        };
        let ghost input = self.devices.console_input@;
        let ghost memory = self@.devices.ram;
        let mut offset: usize = 0;
        while offset < count
            invariant
                self.wf(),
                offset <= count <= input.len(),
                start + count <= memory.len(),
                memory.len() == self.devices.ram.len,
                self@ == old(self)@.with_devices(
                    (DevicesView {
                        ram: ram::splice(memory, start as int, input.subrange(0, offset as int)),
                        input: input.subrange(offset as int, input.len() as int),
                        ..old(self)@.devices
                    }),
                ),
            decreases count - offset,
        {
            let ghost before = self@;
            if let Some(byte) = self.devices.console_input.pop_front() {
                assert(byte == input[offset as int]);
                self.devices.ram.set_byte(start + offset, byte);
            }
            assert(self@.devices.input =~= input.subrange(offset + 1, input.len() as int));
            assert(self@.devices.ram =~= ram::splice(
                memory,
                start as int,
                input.subrange(0, offset + 1),
            ));
            offset = offset + 1;
        }
        assert(ram::splice(memory, start as int, input.subrange(0, 0)) =~= memory);
        (SBI_SUCCESS, count as u64)
    }

    pub fn sbi_9p_exchange(
        &mut self,
        request: u64,
        request_bytes: u64,
        response: u64,
        response_bytes: u64,
        channel: u64,
        flags: u64,
    ) -> (r: Option<Reply>)
        requires
            old(self).wf(),
        ensures
            final(self).wf(),
            (final(self)@, r) == old(self)@.exchange_spec(
                request,
                request_bytes,
                response,
                response_bytes,
                channel,
                flags,
            ),
    {
        if self.pending_9p_request.is_some() {
            return Some((SBI_ERR_ALREADY_AVAILABLE, 0));
        }
        if channel > u32::MAX as u64 || channel == 0 || flags != 0 {
            return Some((SBI_ERR_INVALID_PARAM, 0));
        }
        if request_bytes < MIN_9P_MESSAGE_BYTES as u64 || request_bytes > MAX_9P_MESSAGE_BYTES as u64
            || response_bytes < MIN_9P_MESSAGE_BYTES as u64 || response_bytes
            > MAX_9P_MESSAGE_BYTES as u64 {
            return Some((SBI_ERR_INVALID_PARAM, 0));
        }
        let range = match self.devices.ram_range_len(request, request_bytes as usize) {
            Some(range) => range,
            None => {
                return Some((SBI_ERR_INVALID_ADDRESS, 0));
            },
        };
        if self.devices.ram_range_len(response, response_bytes as usize).is_none() {
            return Some((SBI_ERR_INVALID_ADDRESS, 0));
        }
        if self.next_host_request_id == u64::MAX {
            return Some((SBI_ERR_FAILED, 0));
        }
        let id = HostRequestId(self.next_host_request_id);
        if let Some(message) = self.devices.ram.copy_to_vec(range) {
            self.next_host_request_id = self.next_host_request_id + 1;
            self.pending_9p_request =
            Some(
                PendingPlan9Request {
                    request: Plan9Request {
                        id,
                        channel: channel as u32,
                        message,
                        max_response_bytes: response_bytes as usize,
                    },
                    response_address: response,
                    hart_id: self.active_hart_id,
                },
            );
        }
        None
    }

    /// Serve one firmware call by the active hart.
    pub fn handle_sbi_call(&mut self) -> (r: Result<Option<HaltStatus>, MachineTrap>)
        requires
            old(self).wf(),
        ensures
            final(self).wf(),
            (final(self)@, r) == old(self)@.sbi_spec(),
    {
        proof {
            reveal(MachineView::sbi_spec);
        }
        let extension: u64 = self.read_reg(17);
        let function: u64 = self.read_reg(16);
        let a0: u64 = self.read_reg(10);
        let a1: u64 = self.read_reg(11);
        let a2: u64 = self.read_reg(12);
        if extension == SBI_EXT_BASE {
            let answer = base_reply(function, a0);
            self.reply(answer);
        } else if extension == SBI_EXT_TIME && function == 0 {
            let active: usize = self.active_hart_id;
            self.harts[active].timer_deadline = a0;
            let pending: u64 = self.harts[active].csrs.mip & !MIP_STIP;
            self.harts[active].csrs.mip = pending;
            self.reply((SBI_SUCCESS, 0));
        } else if extension == SBI_EXT_IPI && function == 0 {
            let answer = self.sbi_send_ipi(a0, a1);
            self.reply(answer);
        } else if extension == SBI_EXT_RFENCE {
            let answer = self.sbi_remote_fence(function, a0, a1);
            self.reply(answer);
        } else if extension == SBI_EXT_HSM && function == 0 {
            let answer = self.sbi_hart_start(a0, a1, a2);
            self.reply(answer);
        } else if extension == SBI_EXT_HSM && function == 1 {
            let active: usize = self.active_hart_id;
            self.set_hart_lifecycle(active, HartLifecycle::Stopped);
        } else if extension == SBI_EXT_HSM && function == 2 {
            let answer = self.sbi_hart_status(a0);
            self.reply(answer);
        } else if extension == SBI_EXT_DBCN && function == 0 {
            let answer = self.sbi_debug_console_write(a0, a1, a2);
            self.reply(answer);
        } else if extension == SBI_EXT_DBCN && function == 1 {
            let answer = self.sbi_debug_console_read(a0, a1, a2);
            self.reply(answer);
        } else if extension == SBI_EXT_DBCN && function == 2 {
            self.devices.push_console_output(a0 as u8)?;
            self.reply((SBI_SUCCESS, 0));
        } else if extension == SBI_EXT_SRST && function == 0 {
            if a0 <= 2 && a1 <= 1 {
                self.reply((SBI_SUCCESS, 0));
                return Ok(
                    Some(
                        HaltStatus {
                            passed: a0 == 0 && a1 == 0,
                            code: ((a0 as u32) << 16) | a1 as u32,
                        },
                    ),
                );
            }
            self.reply((SBI_ERR_INVALID_PARAM, 0));
        } else if extension == SBI_EXT_AOS_9P && function == 0 {
            let a3: u64 = self.read_reg(13);
            let a4: u64 = self.read_reg(14);
            let a5: u64 = self.read_reg(15);
            if let Some(answer) = self.sbi_9p_exchange(a0, a1, a2, a3, a4, a5) {
                self.reply(answer);
            }
        } else {
            self.reply((SBI_ERR_NOT_SUPPORTED, 0));
        }
        Ok(None)
    }
}

} // verus!
