//! RAM, serial console, test finisher and the shared timer of the machine.

use crate::isa::MachineTrap;
use crate::platform::{
    HaltStatus, MachineConfig, MachineError, DRAM_BASE, TEST_FINISHER_BASE, TEST_FINISHER_SIZE,
    UART_BASE, UART_INTERRUPT_IDENTIFICATION, UART_LINE_STATUS, UART_LINE_STATUS_DATA_READY,
    UART_LINE_STATUS_TRANSMIT_EMPTY, UART_RECEIVE, UART_SIZE, UART_TRANSMIT,
};
use crate::ram;
use crate::ram::GuestRam;
use std::collections::VecDeque;
use vstd::prelude::*;

verus! {

/// Devices that every hart shares.
#[derive(Debug)]
pub struct Devices {
    pub ram: GuestRam,
    pub mtime: u64,
    pub console_input: VecDeque<u8>,
    pub console_output: Vec<u8>,
    pub max_console_bytes: usize,
}

/// What the shared devices hold.
#[verifier::ext_equal]
pub struct DevicesView {
    pub ram: Seq<u8>,
    pub mtime: u64,
    pub input: Seq<u8>,
    pub output: Seq<u8>,
    pub limit: usize,
}

/// Offset of a RAM range of `bytes` bytes at a physical address.
pub open spec fn ram_offset(ram_len: int, address: u64, bytes: int) -> Option<int> {
    if DRAM_BASE <= address && address - DRAM_BASE + bytes <= ram_len {
        Some(address - DRAM_BASE)
    } else {
        None
    }
}

impl DevicesView {
    pub open spec fn fresh(config: MachineConfig) -> DevicesView {
        DevicesView {
            ram: ram::zeros(config.ram_bytes as nat),
            mtime: 0,
            input: Seq::empty(),
            output: Seq::empty(),
            limit: config.max_console_bytes,
        }
    }

    pub open spec fn reset_spec(self) -> DevicesView {
        DevicesView {
            ram: ram::zeros(self.ram.len()),
            mtime: 0,
            input: Seq::empty(),
            output: Seq::empty(),
            ..self
        }
    }

    pub open spec fn in_uart(address: u64) -> bool {
        UART_BASE <= address < UART_BASE + UART_SIZE
    }

    /// RAM number at a physical address.
    pub open spec fn load_spec(self, address: u64, bytes: u8) -> Option<u64> {
        match ram_offset(self.ram.len() as int, address, bytes as int) {
            Some(start) => ram::value_at(self.ram, start, bytes),
            None => None,
        }
    }

    /// Devices after a RAM store at a physical address.
    pub open spec fn store_spec(self, address: u64, value: u64, bytes: u8) -> Option<DevicesView> {
        match ram_offset(self.ram.len() as int, address, bytes as int) {
            Some(start) => match ram::stored(self.ram, start, value, bytes) {
                Some(ram) => Some(DevicesView { ram, ..self }),
                None => None,
            },
            None => None,
        }
    }

    pub open spec fn read_spec(self, address: u64, bytes: u8) -> (
        DevicesView,
        Result<u64, MachineTrap>,
    ) {
        let fault = Err(MachineTrap::LoadAccessFault { address, bytes });
        if DevicesView::in_uart(address) {
            let offset = address - UART_BASE;
            if bytes != 1 {
                (self, fault)
            } else if offset == UART_RECEIVE {
                if self.input.len() == 0 {
                    (self, Ok(0))
                } else {
                    (
                        DevicesView {
                            input: self.input.subrange(1, self.input.len() as int),
                            ..self
                        },
                        Ok(self.input[0] as u64),
                    )
                }
            } else if offset == UART_INTERRUPT_IDENTIFICATION {
                (self, Ok(1))
            } else if offset == UART_LINE_STATUS {
                (
                    self,
                    Ok(
                        if self.input.len() == 0 {
                            UART_LINE_STATUS_TRANSMIT_EMPTY
                        } else {
                            UART_LINE_STATUS_TRANSMIT_EMPTY | UART_LINE_STATUS_DATA_READY
                        },
                    ),
                )
            } else {
                (self, Ok(0))
            }
        } else {
            match self.load_spec(address, bytes) {
                Some(value) => (self, Ok(value)),
                None => (self, fault),
            }
        }
    }

    pub open spec fn push_spec(self, byte: u8) -> (DevicesView, Result<(), MachineTrap>) {
        if self.output.len() == self.limit {
            (self, Err(MachineTrap::ConsoleLimit { limit: self.limit }))
        } else {
            (DevicesView { output: self.output.push(byte), ..self }, Ok(()))
        }
    }

    pub open spec fn write_spec(self, address: u64, value: u64, bytes: u8) -> (
        DevicesView,
        Result<Option<HaltStatus>, MachineTrap>,
    ) {
        let fault = Err(MachineTrap::StoreAccessFault { address, bytes });
        if DevicesView::in_uart(address) {
            if bytes != 1 || address - UART_BASE != UART_TRANSMIT {
                (self, fault)
            } else {
                let (next, pushed) = self.push_spec(value as u8);
                match pushed {
                    Ok(_) => (next, Ok(None)),
                    Err(trap) => (next, Err(trap)),
                }
            }
        } else if TEST_FINISHER_BASE <= address < TEST_FINISHER_BASE + TEST_FINISHER_SIZE {
            let word = value as u32;
            if bytes != 4 || address != TEST_FINISHER_BASE {
                (self, fault)
            } else if word == 0x5555 {
                (self, Ok(Some(HaltStatus { passed: true, code: 0 })))
            } else if word & 0xffff == 0x3333 {
                (self, Ok(Some(HaltStatus { passed: false, code: word >> 16 })))
            } else {
                (self, Ok(None))
            }
        } else {
            match self.store_spec(address, value, bytes) {
                Some(next) => (next, Ok(None)),
                None => (self, fault),
            }
        }
    }

    pub open spec fn copy_in_spec(self, address: u64, source: Seq<u8>) -> Option<DevicesView> {
        match ram_offset(self.ram.len() as int, address, source.len() as int) {
            Some(start) => Some(DevicesView { ram: ram::splice(self.ram, start, source), ..self }),
            None => None,
        }
    }
}

impl Devices {
    pub open spec fn view(&self) -> DevicesView {
        DevicesView {
            ram: self.ram@,
            mtime: self.mtime,
            input: self.console_input@,
            output: self.console_output@,
            limit: self.max_console_bytes,
        }
    }

    pub open spec fn wf(&self) -> bool {
        &&& self.ram.wf()
        &&& self.console_output@.len() <= self.max_console_bytes
    }

    /// Reset devices with zeroed RAM; only the allocator can refuse them.
    pub fn new(config: MachineConfig) -> (r: Result<Self, MachineError>)
        ensures
            r matches Ok(devices) ==> devices.wf() && devices@ == DevicesView::fresh(config)
                && devices.ram.untouched(config.ram_bytes as int),
            r matches Err(error) ==> error == MachineError::RamAllocationDenied(config.ram_bytes),
    {
        Devices::over(config, GuestRam::zeroed(config.ram_bytes))
    }

    /// Reset devices over the RAM that was admitted for them, if it was.
    pub fn over(config: MachineConfig, ram: Result<GuestRam, MachineError>) -> (r: Result<
        Self,
        MachineError,
    >)
        requires
            ram matches Ok(ram) ==> ram.untouched(config.ram_bytes as int),
        ensures
            match (ram, r) {
                (Ok(ram), Ok(devices)) => devices.wf() && devices@ == DevicesView::fresh(config)
                    && devices.ram == ram,
                (Err(refused), Err(error)) => error == refused,
                _ => false,
            },
    {
        match ram {
            Ok(ram) => Ok(
                Devices {
                    ram,
                    mtime: 0,
                    console_input: VecDeque::new(),
                    console_output: Vec::new(),
                    max_console_bytes: config.max_console_bytes,
                },
            ),
            Err(error) => Err(error),
        }
    }

    pub fn reset(&mut self)
        requires
            old(self).wf(),
        ensures
            final(self).wf(),
            final(self)@ == old(self)@.reset_spec(),
            final(self).ram.written() == Seq::new(old(self).ram.chunks@.len(), |k: int| false),
    {
        self.ram.fill_zero();
        self.mtime = 0;
        self.console_input.clear();
        self.console_output.clear();
    }

    pub fn load_program(&mut self, program: &[u8]) -> (r: bool)
        requires
            old(self).wf(),
        ensures
            final(self).wf(),
            r == (program@.len() <= old(self)@.ram.len()),
            r ==> final(self)@ == (DevicesView {
                ram: ram::splice(old(self)@.ram, 0, program@),
                ..old(self)@
            }),
            !r ==> final(self)@ == old(self)@,
            final(self).ram.written() == (if r {
                ram::grown(old(self).ram.written(), 0, program@)
            } else {
                old(self).ram.written()
            }),
    {
        self.ram.copy_from_slice(0, program)
    }

    /// Serial output retained since the previous call.
    pub fn take_new_console(&mut self) -> (r: Vec<u8>)
        requires
            old(self).wf(),
        ensures
            final(self).wf(),
            r@ == old(self)@.output,
            final(self)@ == (DevicesView { output: Seq::empty(), ..old(self)@ }),
    {
        let mut taken: Vec<u8> = Vec::new();
        std::mem::swap(&mut taken, &mut self.console_output);
        taken
    }

    pub fn read(&mut self, address: u64, bytes: u8) -> (r: Result<u64, MachineTrap>)
        requires
            old(self).wf(),
        ensures
            final(self).wf(),
            (final(self)@, r) == old(self)@.read_spec(address, bytes),
    {
        if address >= UART_BASE && address - UART_BASE < UART_SIZE {
            if bytes != 1 {
                return Err(MachineTrap::LoadAccessFault { address, bytes });
            }
            let offset: u64 = address - UART_BASE;
            if offset == UART_RECEIVE {
                return match self.console_input.pop_front() {
                    Some(byte) => Ok(byte as u64),
                    None => Ok(0),
                };
            }
            if offset == UART_INTERRUPT_IDENTIFICATION {
                return Ok(1);
            }
            if offset == UART_LINE_STATUS {
                return Ok(
                    if self.console_input.len() == 0 {
                        UART_LINE_STATUS_TRANSMIT_EMPTY
                    } else {
                        UART_LINE_STATUS_TRANSMIT_EMPTY | UART_LINE_STATUS_DATA_READY
                    },
                );
            }
            return Ok(0);
        }
        match self.read_ram(address, bytes) {
            Some(value) => Ok(value),
            None => Err(MachineTrap::LoadAccessFault { address, bytes }),
        }
    }

    pub fn write(&mut self, address: u64, value: u64, bytes: u8) -> (r: Result<
        Option<HaltStatus>,
        MachineTrap,
    >)
        requires
            old(self).wf(),
        ensures
            final(self).wf(),
            (final(self)@, r) == old(self)@.write_spec(address, value, bytes),
    {
        if address >= UART_BASE && address - UART_BASE < UART_SIZE {
            if bytes != 1 || address - UART_BASE != UART_TRANSMIT {
                return Err(MachineTrap::StoreAccessFault { address, bytes });
            }
            return match self.push_console_output(value as u8) {
                Ok(_) => Ok(None),
                Err(trap) => Err(trap),
            };
        }
        if address >= TEST_FINISHER_BASE && address - TEST_FINISHER_BASE < TEST_FINISHER_SIZE {
            if bytes != 4 || address != TEST_FINISHER_BASE {
                return Err(MachineTrap::StoreAccessFault { address, bytes });
            }
            let word: u32 = value as u32;
            if word == 0x5555 {
                return Ok(Some(HaltStatus { passed: true, code: 0 }));
            }
            if word & 0xffff == 0x3333 {
                return Ok(Some(HaltStatus { passed: false, code: word >> 16 }));
            }
            return Ok(None);
        }
        if self.write_ram(address, value, bytes) {
            Ok(None)
        } else {
            Err(MachineTrap::StoreAccessFault { address, bytes })
        }
    }

    pub fn ram_range(&self, address: u64, bytes: u8) -> (r: Option<std::ops::Range<usize>>)
        requires
            self.wf(),
        ensures
            r is Some <==> ram_offset(self@.ram.len() as int, address, bytes as int) is Some,
            r matches Some(range) ==> range.start == address - DRAM_BASE && range.end == address
                - DRAM_BASE + bytes && range.end <= self.ram.len,
    {
        self.ram_range_len(address, bytes as usize)
    }

    pub fn ram_range_len(&self, address: u64, bytes: usize) -> (r: Option<std::ops::Range<usize>>)
        requires
            self.wf(),
        ensures
            r is Some <==> ram_offset(self@.ram.len() as int, address, bytes as int) is Some,
            r matches Some(range) ==> range.start == address - DRAM_BASE && range.end == address
                - DRAM_BASE + bytes && range.end <= self.ram.len,
    {
        if address < DRAM_BASE {
            return None;
        }
        let offset: u64 = address - DRAM_BASE;
        let length: usize = self.ram.len();
        if offset > length as u64 {
            return None;
        }
        let start: usize = offset as usize;
        if length - start < bytes {
            return None;
        }
        Some(start..start + bytes)
    }

    pub fn read_ram(&self, address: u64, bytes: u8) -> (r: Option<u64>)
        requires
            self.wf(),
        ensures
            r == self@.load_spec(address, bytes),
    {
        match self.ram_range(address, bytes) {
            Some(range) => self.ram.read_value(range.start, bytes),
            None => None,
        }
    }

    pub fn write_ram(&mut self, address: u64, value: u64, bytes: u8) -> (r: bool)
        requires
            old(self).wf(),
        ensures
            final(self).wf(),
            match old(self)@.store_spec(address, value, bytes) {
                Some(next) => r && final(self)@ == next,
                None => !r && final(self)@ == old(self)@,
            },
    {
        match self.ram_range(address, bytes) {
            Some(range) => self.ram.write_value(range.start, value, bytes),
            None => false,
        }
    }

    pub fn write_ram_slice(&mut self, address: u64, bytes: &[u8]) -> (r: bool)
        requires
            old(self).wf(),
        ensures
            final(self).wf(),
            match old(self)@.copy_in_spec(address, bytes@) {
                Some(next) => r && final(self)@ == next,
                None => !r && final(self)@ == old(self)@,
            },
    {
        match self.ram_range_len(address, bytes.len()) {
            Some(range) => self.ram.copy_from_slice(range.start, bytes),
            None => false,
        }
    }

    pub fn push_console_output(&mut self, byte: u8) -> (r: Result<(), MachineTrap>)
        requires
            old(self).wf(),
        ensures
            final(self).wf(),
            (final(self)@, r) == old(self)@.push_spec(byte),
    {
        if self.console_output.len() == self.max_console_bytes {
            return Err(MachineTrap::ConsoleLimit { limit: self.max_console_bytes });
        }
        self.console_output.push(byte);
        Ok(())
    }

    pub fn tick(&mut self)
        requires
            old(self).wf(),
        ensures
            final(self).wf(),
            final(self)@ == (DevicesView { mtime: old(self)@.mtime.wrapping_add(1), ..old(self)@ }),
    {
        self.mtime = self.mtime.wrapping_add(1);
    }

    /// An exact copy.
    pub fn duplicate(&self) -> (r: Self)
        requires
            self.wf(),
        ensures
            r.wf(),
            r@ == self@,
    {
        let mut console_input: VecDeque<u8> = VecDeque::new();
        let mut i: usize = 0;
        while i < self.console_input.len()
            invariant
                i <= self.console_input@.len(),
                console_input@ == self.console_input@.subrange(0, i as int),
            decreases self.console_input@.len() - i,
        {
            console_input.push_back(self.console_input[i]);
            i = i + 1;
            assert(console_input@ =~= self.console_input@.subrange(0, i as int));
        }
        assert(console_input@ =~= self.console_input@);
        let console_output: Vec<u8> = crate::bytes::copy_range(
            self.console_output.as_slice(),
            0,
            self.console_output.len(),
        );
        assert(console_output@ =~= self.console_output@);
        Devices {
            ram: self.ram.duplicate(),
            mtime: self.mtime,
            console_input,
            console_output,
            max_console_bytes: self.max_console_bytes,
        }
    }
}

} // verus!
