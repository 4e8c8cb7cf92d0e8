//! What the control and status registers keep of a write and give to a read,
//! and who may reach them.

use crate::alu_laws;
use crate::bits;
use crate::cpu::CsrFile;
use crate::instruction_laws;
use crate::isa;
use crate::isa::{Csr, MachineTrap, Privilege};
use crate::machine::MachineView;
use crate::platform::HaltStatus;
use crate::step;
use crate::zicsr;
use vstd::prelude::*;

verus! {

// Fields.

/// Bits of the status register that machine code may write: the enables, what
/// they were, the levels that were left, the state of the floating-point unit,
/// and the three that change how memory is accessed.
pub open spec fn status_field(i: u64) -> bool {
    supervisor_field(i) || i == 3 || i == 7 || i == 11 || i == 12 || i == 17
}

/// Those of them that supervisor code may write.
pub open spec fn supervisor_field(i: u64) -> bool {
    i == 1 || i == 5 || i == 8 || i == 13 || i == 14 || i == 18 || i == 19
}

/// Interrupts of supervisor level: software, timer and external.
pub open spec fn supervisor_interrupt(i: u64) -> bool {
    i == 1 || i == 5 || i == 9
}

pub open spec fn machine_interrupt(i: u64) -> bool {
    i == 3 || i == 7 || i == 11
}

/// Exceptions that can be delegated: all but an environment call of machine
/// level and the numbers that have no meaning.
pub open spec fn delegable(i: u64) -> bool {
    i < 10 || i == 12 || i == 13 || i == 15
}

/// The floating-point unit was used since its state was last saved.
pub open spec fn dirty(status: u64) -> bool {
    alu_laws::bit(status, 13) && alu_laws::bit(status, 14)
}

proof fn lemma_and(a: u64, b: u64, i: u64)
    requires
        i < 64,
    ensures
        alu_laws::bit(a & b, i) == (alu_laws::bit(a, i) && alu_laws::bit(b, i)),
        alu_laws::bit(a | b, i) == (alu_laws::bit(a, i) || alu_laws::bit(b, i)),
        alu_laws::bit(!b, i) == !alu_laws::bit(b, i),
{
    let above: u64 = i;
    bits::lemma_bits(a, b, 0, i, i, above);
    bits::lemma_status_bits(b, i);
}

proof fn lemma_merged(a: u64, b: u64, mask: u64, i: u64)
    requires
        i < 64,
    ensures
        alu_laws::bit((a & !mask) | (b & mask), i) == (if alu_laws::bit(mask, i) {
            alu_laws::bit(b, i)
        } else {
            alu_laws::bit(a, i)
        }),
{
    lemma_and(a, mask, i);
    lemma_and(a, !mask, i);
    lemma_and(b, mask, i);
    lemma_and(a & !mask, b & mask, i);
}

proof fn lemma_dirty(status: u64)
    ensures
        (status & 0x6000 == 0x6000) == dirty(status),
        (status & 0x6000 != 0) == (alu_laws::bit(status, 13) || alu_laws::bit(status, 14)),
{
    bits::lemma_status_bits(status, 0);
}

// Reads after writes.

/// Registers that hold a whole number give back what was written.
pub proof fn whole_registers_keep_what_is_written(f: CsrFile, value: u64)
    ensures
        f.set(Csr::Sscratch, value).get(Csr::Sscratch) == value,
        f.set(Csr::Scause, value).get(Csr::Scause) == value,
        f.set(Csr::Stval, value).get(Csr::Stval) == value,
        f.set(Csr::Mscratch, value).get(Csr::Mscratch) == value,
        f.set(Csr::Mcause, value).get(Csr::Mcause) == value,
        f.set(Csr::Mtval, value).get(Csr::Mtval) == value,
{
}

/// Return addresses are even; handler addresses are multiples of four with a
/// mode of zero or one; counters are opened by three bits; the address space is
/// taken as it is where its mode is none or the three-level one, else left.
pub proof fn shaped_registers_keep_what_is_legal(f: CsrFile, value: u64)
    ensures
        f.set(Csr::Sepc, value).get(Csr::Sepc) == value - value % 2,
        f.set(Csr::Mepc, value).get(Csr::Mepc) == value - value % 2,
        f.set(Csr::Stvec, value).get(Csr::Stvec) == (if value % 4 < 2 {
            value as int
        } else {
            value - value % 4
        }),
        f.set(Csr::Mtvec, value).get(Csr::Mtvec) == (if value % 4 < 2 {
            value as int
        } else {
            value - value % 4
        }),
        f.set(Csr::Scounteren, value).get(Csr::Scounteren) == value % 8,
        f.set(Csr::Mcounteren, value).get(Csr::Mcounteren) == value % 8,
        f.set(Csr::Satp, value).get(Csr::Satp) == (if value / 0x1000_0000_0000_0000 == 0 || value
            / 0x1000_0000_0000_0000 == 8 {
            value
        } else {
            f.get(Csr::Satp)
        }),
{
    bits::lemma_masks(value);
    bits::lemma_masks(value & !1u64);
    bits::lemma_masks(value & !3u64);
    bits::lemma_status_bits(value, 0);
}

/// Each bit of the status is written if it is one that the level may write; a
/// level that does not exist is replaced by the lowest. Reading adds the widths
/// of the registers, and the summary of the floating-point state on top.
pub proof fn status_bits_are_written(f: CsrFile, value: u64, i: u64)
    requires
        i < 64,
    ensures
        alu_laws::bit(f.set(Csr::Mstatus, value).mstatus, i) == (if (i == 11 || i == 12)
            && alu_laws::bit(value, 12) && !alu_laws::bit(value, 11) {
            false
        } else if status_field(i) {
            alu_laws::bit(value, i)
        } else {
            alu_laws::bit(f.mstatus, i)
        }),
        alu_laws::bit(f.set(Csr::Sstatus, value).mstatus, i) == (if supervisor_field(i) {
            alu_laws::bit(value, i)
        } else {
            alu_laws::bit(f.mstatus, i)
        }),
        alu_laws::bit(f.get(Csr::Mstatus), i) == (alu_laws::bit(f.mstatus, i) || i == 33 || i == 35
            || i == 63 && dirty(f.mstatus)),
        alu_laws::bit(f.get(Csr::Sstatus), i) == ((supervisor_field(i) || i == 33 || i == 63)
            && (alu_laws::bit(f.mstatus, i) || i == 63 && dirty(f.mstatus))),
        ({
            let after = f.set(Csr::Mstatus, value);
            after == CsrFile { mstatus: after.mstatus, ..f }
        }),
        ({
            let after = f.set(Csr::Sstatus, value);
            after == CsrFile { mstatus: after.mstatus, ..f }
        }),
{
    let admitted = value & 0xe_79aa;
    let legal = if admitted & 0x1800 == 0x1000 {
        admitted & !0x1800u64
    } else {
        admitted
    };
    assert((admitted & 0x1800 == 0x1000) == (alu_laws::bit(value, 12) && !alu_laws::bit(
        value,
        11,
    ))) by {
        bits::lemma_status_bits(value, 0);
    }
    lemma_and(value, 0xe_79aa, i);
    lemma_and(admitted, 0x1800, i);
    lemma_and(admitted, !0x1800u64, i);
    lemma_and(f.mstatus, 0xe_79aa, i);
    lemma_and(f.mstatus, !0xe_79aau64, i);
    lemma_and(f.mstatus & !0xe_79aau64, legal, i);
    bits::lemma_status_bits(f.mstatus, i);
    lemma_merged(f.mstatus, value, 0xc_6122, i);
    lemma_dirty(f.mstatus);
    lemma_and(f.mstatus, 0x8000_0000_0000_0000, i);
    lemma_and(f.status_spec(), 0x8000_0002_000c_6122, i);
    lemma_and(f.status_spec(), 0x2_0000_0000, i);
    lemma_and(f.status_spec() | 0x2_0000_0000, 0x8_0000_0000, i);
}

/// Interrupts are enabled, marked and delegated bit by bit; supervisor code
/// reaches those that are delegated to it, and of the pending ones only its own
/// software interrupt.
pub proof fn interrupt_bits_are_written(f: CsrFile, value: u64, i: u64)
    requires
        i < 64,
    ensures
        alu_laws::bit(f.set(Csr::Mie, value).get(Csr::Mie), i) == (alu_laws::bit(value, i) && (
        supervisor_interrupt(i) || machine_interrupt(i))),
        alu_laws::bit(f.set(Csr::Mideleg, value).get(Csr::Mideleg), i) == (alu_laws::bit(value, i)
            && supervisor_interrupt(i)),
        alu_laws::bit(f.set(Csr::Medeleg, value).get(Csr::Medeleg), i) == (alu_laws::bit(value, i)
            && delegable(i)),
        alu_laws::bit(f.set(Csr::Mip, value).get(Csr::Mip), i) == (if i == 1 || i == 5 {
            alu_laws::bit(value, i)
        } else {
            alu_laws::bit(f.mip, i)
        }),
        alu_laws::bit(f.set(Csr::Sie, value).mie, i) == (if alu_laws::bit(f.mideleg, i) {
            alu_laws::bit(value, i)
        } else {
            alu_laws::bit(f.mie, i)
        }),
        alu_laws::bit(f.set(Csr::Sip, value).mip, i) == (if i == 1 && alu_laws::bit(f.mideleg, 1) {
            alu_laws::bit(value, 1)
        } else {
            alu_laws::bit(f.mip, i)
        }),
        alu_laws::bit(f.get(Csr::Sie), i) == (alu_laws::bit(f.mie, i) && alu_laws::bit(
            f.mideleg,
            i,
        )),
        alu_laws::bit(f.get(Csr::Sip), i) == (alu_laws::bit(f.mip, i) && alu_laws::bit(
            f.mideleg,
            i,
        )),
        ({
            let after = f.set(Csr::Sie, value);
            after == CsrFile { mie: after.mie, ..f }
        }),
        ({
            let after = f.set(Csr::Sip, value);
            after == CsrFile { mip: after.mip, ..f }
        }),
{
    bits::lemma_status_bits(value, i);
    lemma_and(value, 0xaaa, i);
    lemma_and(value, 0x222, i);
    lemma_and(value, 0xb3ff, i);
    lemma_and(0x2, 0x20, i);
    lemma_merged(f.mip, value, 0x2u64 | 0x20u64, i);
    lemma_merged(f.mie, value, f.mideleg, i);
    lemma_and(0x2, f.mideleg, i);
    lemma_merged(f.mip, value, 0x2 & f.mideleg, i);
    lemma_and(f.mie, f.mideleg, i);
    lemma_and(f.mip, f.mideleg, i);
}

/// The floating-point register holds five flags below three bits of rounding;
/// writing it, or either part, leaves the other part and marks the unit dirty.
pub proof fn floating_fields_are_written(f: CsrFile, value: u64)
    ensures
        f.get(Csr::Fcsr) == f.get(Csr::Frm) * 32 + f.get(Csr::Fflags),
        f.set(Csr::Fflags, value).get(Csr::Fflags) == value % 32,
        f.set(Csr::Fflags, value).get(Csr::Frm) == f.get(Csr::Frm),
        f.set(Csr::Frm, value).get(Csr::Frm) == value % 8,
        f.set(Csr::Frm, value).get(Csr::Fflags) == f.get(Csr::Fflags),
        f.set(Csr::Fcsr, value).get(Csr::Fcsr) == value % 256,
        dirty(f.set(Csr::Fflags, value).mstatus),
        dirty(f.set(Csr::Frm, value).mstatus),
        dirty(f.set(Csr::Fcsr, value).mstatus),
{
    bits::lemma_float_fields(f.fcsr, value as u8);
    bits::lemma_low_byte(value);
    bits::lemma_status_bits(f.mstatus, 0);
}

// Access.

/// The lowest level that may reach a register.
pub open spec fn level(csr: Csr) -> Privilege {
    match csr {
        Csr::Fflags | Csr::Frm | Csr::Fcsr | Csr::Cycle | Csr::Time | Csr::Instret => {
            Privilege::User
        },
        Csr::Sstatus | Csr::Sie | Csr::Sip | Csr::Stvec | Csr::Scounteren | Csr::Sscratch
        | Csr::Sepc | Csr::Scause | Csr::Stval | Csr::Satp => Privilege::Supervisor,
        _ => Privilege::Machine,
    }
}

pub open spec fn rank(privilege: Privilege) -> int {
    match privilege {
        Privilege::User => 0,
        Privilege::Supervisor => 1,
        Privilege::Machine => 2,
    }
}

/// The counters that user code sees, by the bit that opens them.
pub open spec fn gate(csr: Csr) -> Option<u64> {
    match csr {
        Csr::Cycle => Some(0u64),
        Csr::Time => Some(1u64),
        Csr::Instret => Some(2u64),
        _ => None,
    }
}

pub open spec fn floating(csr: Csr) -> bool {
    csr == Csr::Fflags || csr == Csr::Frm || csr == Csr::Fcsr
}

/// A register is reached at its address: from its level up; for reading only,
/// where it is a user's counter or the number of the hart; while the
/// floating-point unit is on, where it is of it; and where it is a counter,
/// while the levels above have opened it.
pub proof fn registers_are_reached_from_their_level(
    f: CsrFile,
    csr: Csr,
    privilege: Privilege,
    write: bool,
)
    ensures
        f.access_spec(csr.number(), privilege, write) == (if rank(privilege) < rank(level(csr)) || (
        write && (gate(csr) is Some || csr == Csr::Mhartid)) || (floating(csr) && !alu_laws::bit(
            f.mstatus,
            13,
        ) && !alu_laws::bit(f.mstatus, 14)) || (gate(csr) matches Some(i) && ((privilege
            != Privilege::Machine && !alu_laws::bit(f.mcounteren, i)) || (privilege
            == Privilege::User && !alu_laws::bit(f.scounteren, i)))) {
            None
        } else {
            Some(csr)
        }),
{
    let address = csr.number();
    assert(isa::csr_at(address) == Some(csr)) by {
        let found = choose|c: Csr| #[trigger] c.number() == address;
        isa::csr_addresses_are_distinct(found, csr);
    }
    bits::lemma_half_fields(address);
    lemma_dirty(f.mstatus);
    bits::lemma_status_bits(f.mcounteren, 0);
    bits::lemma_status_bits(f.scounteren, 0);
}

// Instructions.

/// The word of an instruction on a register: its address above two fields.
pub open spec fn csr_word(csr: Csr, source: int, funct3: int, rd: int) -> u32 {
    instruction_laws::i_type(csr.number() as int, source, funct3, rd, 0x73)
}

/// What an instruction leaves of a bit of a register: the bit of its operand,
/// or the old one set or cleared where the operand has it.
pub open spec fn updated(funct3: int, before: bool, operand: bool) -> bool {
    if funct3 % 4 == 1 {
        operand
    } else if funct3 % 4 == 2 {
        before || operand
    } else {
        before && !operand
    }
}

/// An instruction on a control register leaves what the register held in its
/// first field, and writes it bit by bit from its operand, which is a register
/// or, from the fourth group on, the field itself. Setting and clearing nothing
/// does not count as writing.
pub proof fn register_accesses_exchange_values(
    m: MachineView,
    csr: Csr,
    source: int,
    funct3: int,
    rd: int,
    pc: u64,
)
    requires
        instruction_laws::placed(m),
        instruction_laws::fields_fit(0, 0, source, funct3, rd, 0),
        funct3 % 4 != 0,
    ensures
        ({
            let w = csr_word(csr, source, funct3, rd);
            let (after, flow) = step::word_spec(m, w, pc);
            let operand = if funct3 < 4 {
                m.reg(source)
            } else {
                source as u64
            };
            let writes = funct3 % 4 == 1 || source != 0;
            let before = m.csr_spec(csr);
            if m.hart().csrs.access_spec(csr.number(), m.hart().cpu.privilege, writes) is None {
                after == m && flow == Err::<(u64, Option<HaltStatus>), _>(
                    MachineTrap::IllegalInstruction { pc, instruction: w },
                )
            } else {
                &&& flow == instruction_laws::on(pc + 4)
                &&& exists|value: u64|
                    {
                        &&& forall|i: u64|
                            i < 64 ==> #[trigger] alu_laws::bit(value, i) == updated(
                                funct3,
                                alu_laws::bit(before, i),
                                alu_laws::bit(operand, i),
                            )
                        &&& after == (if writes {
                            #[trigger] m.csr_written(csr, value)
                        } else {
                            m
                        }).set_reg(rd, before)
                    }
            }
        }),
{
    reveal(zicsr::csr_instruction_spec);
    reveal(step::system_spec);
    let w = csr_word(csr, source, funct3, rd);
    let number = csr.number() as int;
    instruction_laws::lemma_csr_word(number, source, funct3, rd);
    bits::lemma_word_masks(funct3 as u32);
    registers_are_reached_from_their_level(m.hart().csrs, csr, m.hart().cpu.privilege, true);
    registers_are_reached_from_their_level(m.hart().csrs, csr, m.hart().cpu.privilege, false);
    let operand = if funct3 < 4 {
        m.reg(source)
    } else {
        source as u64
    };
    let before = m.csr_spec(csr);
    let value = if funct3 % 4 == 1 {
        operand
    } else if funct3 % 4 == 2 {
        before | operand
    } else {
        before & !operand
    };
    assert forall|i: u64| i < 64 implies #[trigger] alu_laws::bit(value, i) == updated(
        funct3,
        alu_laws::bit(before, i),
        alu_laws::bit(operand, i),
    ) by {
        lemma_and(before, operand, i);
        lemma_and(before, !operand, i);
    }
    let written = m.csr_written(csr, value);
    let base = if funct3 % 4 == 1 || source != 0 {
        written
    } else {
        m
    };
    assert(base.set_reg(0, before) == base) by {
        assert(base.hart().write_register(0, before) == base.hart());
        assert(base.harts.update(base.active, base.hart()) =~= base.harts);
    }
    assert(((w >> 12) & 7) & 4 == 0 <==> funct3 < 4);
    assert(((w >> 12) & 7) & 3 == funct3 % 4);
    assert(((w >> 20) as u16) == csr.number());
    assert(step::word_spec(m, w, pc) == zicsr::csr_instruction_spec(m, w, pc));
}

/// Writing a register changes nothing of the hart but what it stands for; a new
/// address space, and nothing else, forgets the remembered translations.
pub proof fn register_writes_stay_in_place(m: MachineView, csr: Csr, value: u64)
    requires
        instruction_laws::placed(m),
    ensures
        ({
            let hart = m.hart();
            let after = m.csr_written(csr, value);
            &&& after.harts.len() == m.harts.len()
            &&& forall|id: int|
                0 <= id < m.harts.len() && id != m.active ==> #[trigger] after.harts[id]
                    == m.harts[id]
            &&& after.devices == m.devices
            &&& after.hart().cpu == hart.cpu
            &&& after.hart().cycle == (if csr == Csr::Mcycle {
                value
            } else {
                hart.cycle
            })
            &&& after.hart().instret == (if csr == Csr::Minstret {
                value
            } else {
                hart.instret
            })
            &&& after.hart().csrs == hart.csrs.set(csr, value)
            &&& after.hart().translation_cache == (if after.hart().csrs.satp != hart.csrs.satp {
                crate::hart::TranslationCache::empty()
            } else {
                hart.translation_cache
            })
        }),
{
}

} // verus!
