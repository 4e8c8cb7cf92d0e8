//! What a step does around the instruction itself: fetching it, trapping,
//! reaching devices, and the accesses that cannot be torn apart.

use crate::alu;
use crate::alu_laws;
use crate::atomic;
use crate::bits;
use crate::conduct;
use crate::devices::DevicesView;
use crate::hart::HartState;
use crate::instruction_laws;
use crate::isa;
use crate::isa::{AccessType, MachineTrap, Privilege};
use crate::machine::MachineView;
use crate::mmu;
use crate::mmu_laws;
use crate::platform::{HaltStatus, DRAM_BASE};
use crate::step;
use crate::step::{Fetched, StepEffect};
use vstd::prelude::*;

verus! {

// Traps.

/// Exceptions by their number, and the value that comes with each: the address
/// that could not be reached, or the instruction that is none.
pub proof fn exceptions_have_their_numbers(address: u64, pc: u64, instruction: u32, bytes: u8)
    ensures
        isa::exception_of(MachineTrap::InstructionAddressMisaligned { address }) == Some(
            (0u64, address),
        ),
        isa::exception_of(MachineTrap::InstructionAccessFault { address }) == Some(
            (1u64, address),
        ),
        isa::exception_of(MachineTrap::IllegalInstruction { pc, instruction }) == Some(
            (2u64, instruction as u64),
        ),
        isa::exception_of(MachineTrap::Breakpoint { pc }) == Some((3u64, 0u64)),
        isa::exception_of(MachineTrap::LoadAddressMisaligned { address, bytes }) == Some(
            (4u64, address),
        ),
        isa::exception_of(MachineTrap::LoadAccessFault { address, bytes }) == Some(
            (5u64, address),
        ),
        isa::exception_of(MachineTrap::StoreAddressMisaligned { address, bytes }) == Some(
            (6u64, address),
        ),
        isa::exception_of(MachineTrap::StoreAccessFault { address, bytes }) == Some(
            (7u64, address),
        ),
        isa::exception_of(AccessType::Instruction.page_fault_spec(address)) == Some(
            (12u64, address),
        ),
        isa::exception_of(AccessType::Load.page_fault_spec(address)) == Some((13u64, address)),
        isa::exception_of(AccessType::Store.page_fault_spec(address)) == Some((15u64, address)),
{
}

/// An environment call traps under the number of its level: eight for a user,
/// nine for a supervisor, eleven for machine code. Only a supervisor over
/// firmware is served instead, and goes on behind the call.
pub proof fn environment_calls_trap_by_level(m: MachineView, pc: u64)
    requires
        instruction_laws::placed(m),
    ensures
        ({
            let (after, result) = step::ecall_spec(m, pc);
            let level = m.hart().cpu.privilege;
            if level == Privilege::Supervisor && m.firmware {
                match m.sbi_spec().1 {
                    Ok(halt) => result == Ok::<StepEffect, MachineTrap>(
                        StepEffect { halt, retired: false },
                    ) && after == m.sbi_spec().0.with_hart(
                        m.sbi_spec().0.hart().jump(alu_laws::wrapped(pc + 4)),
                    ),
                    Err(trap) => result == Err::<StepEffect, _>(trap),
                }
            } else {
                &&& result == Ok::<StepEffect, MachineTrap>(
                    StepEffect { halt: None, retired: false },
                )
                &&& after.hart() == m.hart().excepted(
                    match level {
                        Privilege::User => 8,
                        Privilege::Supervisor => 9,
                        Privilege::Machine => 11,
                    },
                    0,
                    pc,
                )
                &&& after.devices == m.devices
            }
        }),
{
}

/// The breakpoint, the wait for an interrupt, the fence of translations and the
/// two returns, by their words; a user may use none but the first.
pub proof fn system_instructions_have_their_words(m: MachineView, pc: u64)
    requires
        instruction_laws::placed(m),
    ensures
        ({
            let user = m.hart().cpu.privilege == Privilege::User;
            let next = instruction_laws::on(pc + 4);
            let illegal = |w: u32|
                Err::<(u64, Option<HaltStatus>), _>(
                    MachineTrap::IllegalInstruction { pc, instruction: w },
                );
            &&& step::word_spec(m, 0x0010_0073, pc) == (
                m,
                Err::<(u64, Option<HaltStatus>), _>(MachineTrap::Breakpoint { pc }),
            )
            &&& step::word_spec(m, 0x1050_0073, pc) == (
                m,
                if user {
                    illegal(0x1050_0073)
                } else {
                    next
                },
            )
            &&& step::word_spec(m, 0x1020_0073, pc).0 == m.with_hart(
                m.hart().sret_spec(pc, 0x1020_0073).0,
            )
            &&& step::word_spec(m, 0x3020_0073, pc).0 == m.with_hart(
                m.hart().mret_spec(pc, 0x3020_0073).0,
            )
        }),
        ({
            let (after, flow) = step::word_spec(m, 0x1200_0073, pc);
            if m.hart().cpu.privilege == Privilege::User {
                after == m && flow is Err
            } else {
                &&& flow == instruction_laws::on(pc + 4)
                &&& after.hart() == HartState {
                    translation_cache: crate::hart::TranslationCache::empty(),
                    ..m.hart()
                }
                &&& after.devices == m.devices
            }
        }),
{
    reveal(step::system_spec);
    bits::lemma_status_code(0, 0);
}

// Fetching.

/// The half of an instruction that memory holds at an address.
pub open spec fn half_at(m: MachineView, physical: u64) -> int {
    m.devices.load_spec(physical, 2)->Some_0 as int
}

/// A step begins with the sixteen bits at the program counter. If their low two
/// are both set, sixteen more stand behind them, which on the last half of a
/// page are looked up on their own.
pub proof fn instructions_are_fetched_by_halves(m: MachineView, pc: u64)
    ensures
        ({
            let (first, place) = mmu::translate_spec(m, pc, AccessType::Instruction);
            let (after, fetched) = step::fetch_spec(m, pc);
            match place {
                Err(trap) => after == first && fetched == Err::<Fetched, _>(trap),
                Ok(physical) => mmu_laws::in_ram(first.devices, physical, 2) ==> {
                    let low = half_at(first, physical);
                    &&& low % 4 != 3 ==> after == first && fetched == Ok::<_, MachineTrap>(
                        Fetched::Half(low as u16),
                    )
                    &&& low % 4 == 3 && pc % 4096 == 4094 ==> {
                        let behind = alu_laws::wrapped(pc + 2);
                        let (second, upper) = mmu::translate_spec(
                            first,
                            behind,
                            AccessType::Instruction,
                        );
                        match upper {
                            Err(trap) => after == second && fetched == Err::<Fetched, _>(trap),
                            Ok(other) => mmu_laws::in_ram(second.devices, other, 2)
                                ==> fetched == Ok::<_, MachineTrap>(
                                Fetched::Word((low + 0x1_0000 * half_at(second, other)) as u32),
                            ),
                        }
                    }
                    &&& low % 4 == 3 && pc % 4096 != 4094 && mmu_laws::in_ram(
                        first.devices,
                        physical,
                        4,
                    ) ==> fetched == Ok::<_, MachineTrap>(
                        Fetched::Word(
                            (first.devices.load_spec(physical, 4)->Some_0) as u32,
                        ),
                    )
                },
            }
        }),
{
    reveal(step::fetch_spec);
    let (first, place) = mmu::translate_spec(m, pc, AccessType::Instruction);
    bits::lemma_masks(pc);
    if let Ok(physical) = place {
        if mmu_laws::in_ram(first.devices, physical, 2) {
            lemma_half(first, physical);
            assert(first.with_devices(first.devices) == first);
            let low = half_at(first, physical) as u16;
            bits::lemma_half_fields(low);
            let behind = alu_laws::wrapped(pc + 2);
            let (second, upper) = mmu::translate_spec(first, behind, AccessType::Instruction);
            if let Ok(other) = upper {
                if mmu_laws::in_ram(second.devices, other, 2) {
                    lemma_half(second, other);
                    let high = half_at(second, other) as u32;
                    bits::lemma_status_code(high, low as u32);
                }
            }
        }
    }
}

proof fn lemma_half(m: MachineView, physical: u64)
    requires
        mmu_laws::in_ram(m.devices, physical, 2),
    ensures
        0 <= half_at(m, physical) < 0x1_0000,
        m.devices.load_spec(physical, 2) is Some,
        m.read_device_spec(physical, 2) == (m, m.devices.read_spec(physical, 2).1),
        m.devices.read_spec(physical, 2).1 == Ok::<u64, MachineTrap>(half_at(m, physical) as u64),
{
    let at = physical - DRAM_BASE;
    let digits = m.devices.ram.subrange(at, at + 2);
    crate::bytes::lemma_limits();
    crate::bytes::lemma_le_value_bound(digits);
}

// Accesses that cannot be torn apart.

/// The width of an atomic access.
pub open spec fn wide(funct3: int) -> u8 {
    if funct3 == 2 {
        4
    } else {
        8
    }
}

/// What a word or doubleword stands for in a register.
pub open spec fn held(value: u64, bytes: u8) -> u64 {
    if bytes == 4 {
        alu_laws::wrapped(alu_laws::short(value, 0x1_0000_0000))
    } else {
        value
    }
}

pub open spec fn atomic_word(
    operation: int,
    order: int,
    rs2: int,
    rs1: int,
    funct3: int,
    rd: int,
) -> u32 {
    instruction_laws::r_type(operation * 4 + order, rs2, rs1, funct3, rd, 0x2f)
}

pub open spec fn atomic_fits(
    operation: int,
    order: int,
    rs2: int,
    rs1: int,
    funct3: int,
    rd: int,
) -> bool {
    &&& 0 <= operation < 32
    &&& 0 <= order < 4
    &&& 0 <= rs2 < 32
    &&& 0 <= rs1 < 32
    &&& funct3 == 2 || funct3 == 3
    &&& 0 <= rd < 32
}

proof fn lemma_atomic_word(
    operation: int,
    order: int,
    rs2: int,
    rs1: int,
    funct3: int,
    rd: int,
)
    requires
        atomic_fits(operation, order, rs2, rs1, funct3, rd),
    ensures
        ({
            let w = atomic_word(operation, order, rs2, rs1, funct3, rd);
            &&& w & 0x7f == 0x2f
            &&& isa::register_field(w, 7) == rd
            &&& (w >> 12) & 7 == funct3
            &&& isa::register_field(w, 15) == rs1
            &&& isa::register_field(w, 20) == rs2
            &&& w >> 27 == operation
        }),
{
    let funct7 = operation * 4 + order;
    instruction_laws::lemma_r_type(funct7, rs2, rs1, funct3, rd, 0x2f);
    bits::lemma_status_code(0, funct7 as u32);
}

proof fn lemma_held(value: u64, bytes: u8)
    requires
        bytes == 4 || bytes == 8,
    ensures
        alu::width_extend_spec(value, bytes) == held(value, bytes),
{
    alu_laws::lemma_extended(value, 32, 0x1_0000_0000);
}

proof fn lemma_aligned(address: u64, bytes: u8, store: bool)
    requires
        bytes == 4 || bytes == 8,
    ensures
        address as int % bytes as int == 0 ==> isa::aligned_spec(address, bytes, store) is Ok,
{
}

proof fn lemma_ram_read(m: MachineView, physical: u64, bytes: u8)
    requires
        bytes == 4 || bytes == 8,
        mmu_laws::in_ram(m.devices, physical, bytes as int),
    ensures
        m.devices.load_spec(physical, bytes) is Some,
        m.read_device_spec(physical, bytes) == (
            m,
            Ok::<u64, MachineTrap>(m.devices.load_spec(physical, bytes)->Some_0),
        ),
{
    assert(m.with_devices(m.devices) == m);
}

/// A load that reserves gives the value in memory and remembers its range.
pub proof fn reserving_loads_read_and_remember(
    m: MachineView,
    order: int,
    rs1: int,
    funct3: int,
    rd: int,
    pc: u64,
)
    requires
        instruction_laws::placed(m),
        atomic_fits(2, order, 0, rs1, funct3, rd),
        m.reg(rs1) as int % wide(funct3) as int == 0,
    ensures
        ({
            let w = atomic_word(2, order, 0, rs1, funct3, rd);
            let (after, flow) = step::word_spec(m, w, pc);
            let bytes = wide(funct3);
            let (t, place) = mmu::translate_spec(m, m.reg(rs1), AccessType::Load);
            match place {
                Err(trap) => after == t && flow == Err::<(u64, Option<HaltStatus>), _>(trap),
                Ok(physical) => mmu_laws::in_ram(t.devices, physical, bytes as int) ==> {
                    &&& flow == instruction_laws::on(pc + 4)
                    &&& after == t.with_hart(
                        HartState { reservation: Some((physical, bytes)), ..t.hart() },
                    ).set_reg(rd, held(t.devices.load_spec(physical, bytes)->Some_0, bytes))
                },
            }
        }),
{
    reveal(atomic::atomic_spec);
    reveal(atomic::load_reserved_spec);
    lemma_atomic_word(2, order, 0, rs1, funct3, rd);
    let bytes = wide(funct3);
    lemma_aligned(m.reg(rs1), bytes, false);
    let (t, place) = mmu::translate_spec(m, m.reg(rs1), AccessType::Load);
    if let Ok(physical) = place {
        if mmu_laws::in_ram(t.devices, physical, bytes as int) {
            lemma_ram_read(t, physical, bytes);
            lemma_held(t.devices.load_spec(physical, bytes)->Some_0, bytes);
        }
    }
}

/// A conditional store writes, and leaves zero, only through a reservation of
/// exactly its range by the same hart; else it leaves one, and memory as it was.
/// Either way the reservation is gone.
pub proof fn conditional_stores_need_the_reservation(
    m: MachineView,
    order: int,
    rs2: int,
    rs1: int,
    funct3: int,
    rd: int,
    pc: u64,
)
    requires
        instruction_laws::placed(m),
        atomic_fits(3, order, rs2, rs1, funct3, rd),
        m.reg(rs1) as int % wide(funct3) as int == 0,
    ensures
        ({
            let w = atomic_word(3, order, rs2, rs1, funct3, rd);
            let (after, flow) = step::word_spec(m, w, pc);
            let bytes = wide(funct3);
            let (t, place) = mmu::translate_spec(m, m.reg(rs1), AccessType::Store);
            let freed = t.with_hart(HartState { reservation: None, ..t.hart() });
            match place {
                Err(trap) => after == t && flow == Err::<(u64, Option<HaltStatus>), _>(trap),
                Ok(physical) => if t.hart().reservation != Some((physical, bytes)) {
                    &&& flow == instruction_laws::on(pc + 4)
                    &&& after == freed.set_reg(rd, 1)
                } else {
                    mmu_laws::in_ram(t.devices, physical, bytes as int)
                        && t.devices.store_spec(physical, m.reg(rs2), bytes) is Some ==> flow
                        == instruction_laws::on(pc + 4) && after == freed.with_devices(
                        t.devices.store_spec(physical, m.reg(rs2), bytes)->Some_0,
                    ).set_reg(rd, 0)
                },
            }
        }),
{
    reveal(atomic::atomic_spec);
    reveal(atomic::store_conditional_spec);
    lemma_atomic_word(3, order, rs2, rs1, funct3, rd);
    lemma_aligned(m.reg(rs1), wide(funct3), true);
}

/// An atomic operation leaves in memory what the operation makes of the old
/// value and the register, and in its first field the old value.
pub proof fn atomic_operations_exchange_values(
    m: MachineView,
    operation: int,
    order: int,
    rs2: int,
    rs1: int,
    funct3: int,
    rd: int,
    pc: u64,
)
    requires
        instruction_laws::placed(m),
        atomic_fits(operation, order, rs2, rs1, funct3, rd),
        operation != 2,
        operation != 3,
        m.reg(rs1) as int % wide(funct3) as int == 0,
    ensures
        ({
            let w = atomic_word(operation, order, rs2, rs1, funct3, rd);
            let (after, flow) = step::word_spec(m, w, pc);
            let bytes = wide(funct3);
            let (t, place) = mmu::translate_spec(m, m.reg(rs1), AccessType::Store);
            match place {
                Err(trap) => after == t && flow == Err::<(u64, Option<HaltStatus>), _>(trap),
                Ok(physical) => if alu::amo_spec(
                    operation as u32,
                    0,
                    m.reg(rs2),
                    bytes,
                ) is None {
                    after == t && flow is Err
                } else {
                    mmu_laws::in_ram(t.devices, physical, bytes as int) ==> {
                        let old_value = t.devices.load_spec(physical, bytes)->Some_0;
                        let new_value = alu::amo_spec(
                            operation as u32,
                            old_value,
                            m.reg(rs2),
                            bytes,
                        )->Some_0;
                        t.devices.store_spec(physical, new_value, bytes) matches Some(stored) ==> {
                            &&& flow == instruction_laws::on(pc + 4)
                            &&& after.devices == stored
                            &&& rd != 0 ==> after.reg(rd) == held(old_value, bytes)
                            &&& forall|r: int|
                                0 <= r < 32 && r != rd ==> #[trigger] after.reg(r) == m.reg(r)
                        }
                    }
                },
            }
        }),
{
    reveal(atomic::atomic_spec);
    reveal(atomic::memory_operation_spec);
    reveal(mmu::invalidated);
    lemma_atomic_word(operation, order, rs2, rs1, funct3, rd);
    let bytes = wide(funct3);
    lemma_aligned(m.reg(rs1), bytes, true);
    let (t, place) = mmu::translate_spec(m, m.reg(rs1), AccessType::Store);
    conduct::lemma_translate(m, m.reg(rs1), AccessType::Store);
    if let Ok(physical) = place {
        if mmu_laws::in_ram(t.devices, physical, bytes as int) {
            let bare = mmu::invalidated(t, physical, bytes);
            assert(bare.devices == t.devices);
            assert(bare.hart().cpu == m.hart().cpu);
            lemma_ram_read(bare, physical, bytes);
            let held_value = t.devices.load_spec(physical, bytes)->Some_0;
            lemma_held(held_value, bytes);
            let result = alu::amo_spec(operation as u32, held_value, m.reg(rs2), bytes)->Some_0;
            let (written, done) = bare.write_device_spec(physical, result, bytes);
            if let Some(stored) = t.devices.store_spec(physical, result, bytes) {
                assert(bare.devices.write_spec(physical, result, bytes).0 == stored);
                assert(written == bare.with_devices(stored));
                assert(done is Ok);
            }
        }
    }
}

// Floating-point memory.

/// A floating-point load fills a register with a doubleword, or with a word
/// below 32 set bits; a store writes its low half or all of it. Neither works
/// while the unit is off.
pub proof fn floating_accesses_move_bits(
    m: MachineView,
    number: int,
    rs2: int,
    rs1: int,
    funct3: int,
    pc: u64,
)
    requires
        instruction_laws::placed(m),
        -2048 <= number < 2048,
        instruction_laws::fields_fit(0, rs2, rs1, 0, 0, 0),
        funct3 == 2 || funct3 == 3,
    ensures
        ({
            let w = instruction_laws::i_type(number, rs1, funct3, rs2, 0x07);
            let (after, flow) = step::word_spec(m, w, pc);
            let address = alu_laws::wrapped(m.reg(rs1) + number);
            let (read, result) = mmu::load_spec(m, address, wide(funct3), false);
            if !m.floating() {
                after == m && flow is Err
            } else {
                match result {
                    Err(trap) => after == read && flow == Err::<(u64, Option<HaltStatus>), _>(trap),
                    Ok(value) => {
                        &&& flow == instruction_laws::on(pc + 4)
                        &&& 0 <= read.active < read.harts.len() ==> after.hart().cpu.get_f64(rs2)
                            == (if funct3 == 3 {
                            value as int
                        } else {
                            0xffff_ffff_0000_0000 + value % 0x1_0000_0000
                        })
                        &&& after.devices == read.devices
                    },
                }
            }
        }),
        ({
            let w = instruction_laws::s_type(number, rs2, rs1, funct3, 0x27);
            let (after, flow) = step::word_spec(m, w, pc);
            let address = alu_laws::wrapped(m.reg(rs1) + number);
            let register = m.hart().cpu.get_f64(rs2);
            let value = if funct3 == 3 {
                register
            } else {
                register % 0x1_0000_0000
            };
            let (written, result) = mmu::store_spec(m, address, value, wide(funct3), false);
            if !m.floating() {
                after == m && flow is Err
            } else {
                match result {
                    Err(trap) => after == written && flow == Err::<(u64, Option<HaltStatus>), _>(
                        trap,
                    ),
                    Ok(halt) => flow == Ok::<_, MachineTrap>((alu_laws::wrapped(pc + 4), halt))
                        && after.devices == written.devices,
                }
            }
        }),
{
    reveal(step::memory_spec);
    instruction_laws::lemma_i_type(number, rs1, funct3, rs2, 0x07);
    instruction_laws::lemma_s_type(number, rs2, rs1, funct3, 0x27);
    let address = alu_laws::wrapped(m.reg(rs1) + number);
    let value = mmu::load_spec(m, address, wide(funct3), false).1->Ok_0;
    alu_laws::lemma_signed(value);
    bits::lemma_low_byte((value as u32) as u64);
    assert(m.hart().cpu.get_f64(rs2) & 0xffff_ffff == m.hart().cpu.get_f64(rs2) % 0x1_0000_0000)
        by {
        bits::lemma_masks(m.hart().cpu.get_f64(rs2));
    }
}

// Devices.

/// The serial port at its address gives the input in order, says whether there
/// is more, and prints what is written to it.
pub proof fn the_serial_port_passes_bytes(d: DevicesView, value: u64)
    ensures
        d.read_spec(0x1000_0000, 1) == (if d.input.len() == 0 {
            (d, Ok::<u64, MachineTrap>(0))
        } else {
            (
                DevicesView { input: d.input.skip(1), ..d },
                Ok::<u64, MachineTrap>(d.input[0] as u64),
            )
        }),
        d.read_spec(0x1000_0005, 1) == (
            d,
            Ok::<u64, MachineTrap>(
                if d.input.len() == 0 {
                    0x60
                } else {
                    0x61
                },
            ),
        ),
        d.output.len() < d.limit && value < 256 ==> d.write_spec(0x1000_0000, value, 1) == (
            DevicesView { output: d.output.push(value as u8), ..d },
            Ok::<Option<HaltStatus>, MachineTrap>(None),
        ),
        d.output.len() == d.limit ==> d.write_spec(0x1000_0000, value, 1) == (
            d,
            Err::<Option<HaltStatus>, _>(MachineTrap::ConsoleLimit { limit: d.limit }),
        ),
{
    bits::lemma_low_byte(value);
    if d.input.len() > 0 {
        assert(d.input.skip(1) =~= d.input.subrange(1, d.input.len() as int));
    }
}

/// The finisher ends the run: with success on one number, and on another with
/// the failure that stands in the upper half.
pub proof fn the_finisher_ends_the_run(d: DevicesView, code: u32)
    requires
        code < 0x8000,
    ensures
        d.write_spec(0x10_0000, 0x5555, 4) == (
            d,
            Ok::<_, MachineTrap>(Some(HaltStatus { passed: true, code: 0 })),
        ),
        d.write_spec(0x10_0000, (code * 0x1_0000 + 0x3333) as u64, 4) == (
            d,
            Ok::<_, MachineTrap>(Some(HaltStatus { passed: false, code })),
        ),
{
    bits::lemma_status_code(code, 0x3333);
}

/// The timer block holds the software interrupt, the deadline of the hart and
/// the time, and gives back what was written to each.
pub proof fn the_timer_block_keeps_its_registers(m: MachineView, value: u64)
    requires
        instruction_laws::placed(m),
    ensures
        ({
            let after = m.write_device_spec(0x200_4000, value, 8).0;
            &&& after.hart() == HartState { timer_deadline: value, ..m.hart() }
            &&& after.devices == m.devices
            &&& after.read_device_spec(0x200_4000, 8) == (after, Ok::<u64, MachineTrap>(value))
        }),
        ({
            let after = m.write_device_spec(0x200_bff8, value, 8).0;
            &&& after.harts == m.harts
            &&& after.devices == DevicesView { mtime: value, ..m.devices }
            &&& after.read_device_spec(0x200_bff8, 8) == (after, Ok::<u64, MachineTrap>(value))
        }),
        ({
            let after = m.write_device_spec(0x200_0000, value, 4).0;
            &&& after.hart() == HartState { msip: value % 2 == 1, ..m.hart() }
            &&& after.devices == m.devices
            &&& after.read_device_spec(0x200_0000, 4) == (after, Ok::<u64, MachineTrap>(value % 2))
        }),
{
    assert(value & 1 == value % 2) by {
        bits::lemma_masks(value);
    }
}

} // verus!
