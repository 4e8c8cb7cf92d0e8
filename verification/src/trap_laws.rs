//! Entering and leaving traps and interrupts, told from the bits of the status
//! register: interrupts are enabled by bits one and three, bits five and seven
//! keep what they were, and bit eight and bits eleven and twelve keep the level
//! that was left.

use crate::alu_laws;
use crate::alu_laws::bit;
use crate::bits;
use crate::cpu::{Cpu, CsrFile};
use crate::hart;
use crate::hart::HartState;
use crate::isa;
use crate::isa::{MachineTrap, Privilege};
use vstd::prelude::*;

verus! {

/// The level kept in bits eleven and twelve.
pub open spec fn kept_level(status: u64) -> int {
    (if bit(status, 11) {
        1int
    } else {
        0int
    }) + (if bit(status, 12) {
        2int
    } else {
        0int
    })
}

/// Status in a supervisor handler that code of a level was left for.
pub open spec fn supervisor_entered(before: u64, after: u64, origin: Privilege) -> bool {
    forall|i: u64|
        i < 64 ==> #[trigger] bit(after, i) == (if i == 1 {
            false
        } else if i == 5 {
            bit(before, 1)
        } else if i == 8 {
            origin != Privilege::User
        } else {
            bit(before, i)
        })
}

/// Status in a machine handler that code of a level was left for.
pub open spec fn machine_entered(before: u64, after: u64, origin: Privilege) -> bool {
    forall|i: u64|
        i < 64 ==> #[trigger] bit(after, i) == (if i == 3 {
            false
        } else if i == 7 {
            bit(before, 3)
        } else if i == 11 {
            origin != Privilege::User
        } else if i == 12 {
            origin == Privilege::Machine
        } else {
            bit(before, i)
        })
}

/// Status once a supervisor handler has returned.
pub open spec fn supervisor_left(before: u64, after: u64) -> bool {
    forall|i: u64|
        i < 64 ==> #[trigger] bit(after, i) == (if i == 1 {
            bit(before, 5)
        } else if i == 5 {
            true
        } else if i == 8 || i == 17 {
            false
        } else {
            bit(before, i)
        })
}

/// Status once a machine handler has returned; below machine level, memory is
/// no longer accessed as another level would.
pub open spec fn machine_left(before: u64, after: u64) -> bool {
    forall|i: u64|
        i < 64 ==> #[trigger] bit(after, i) == (if i == 3 {
            bit(before, 7)
        } else if i == 7 {
            true
        } else if i == 11 || i == 12 {
            false
        } else if i == 17 {
            bit(before, 17) && kept_level(before) == 3
        } else {
            bit(before, i)
        })
}

proof fn lemma_supervisor_entered(s: u64, origin: Privilege)
    ensures
        supervisor_entered(s, hart::supervisor_entry_status(s, origin), origin),
{
    let p = if origin == Privilege::User {
        s & !0x100u64
    } else {
        s | 0x100
    };
    let q = hart::raise_or_clear(p, 0x2, 0x20);
    assert forall|i: u64| i < 64 implies #[trigger] bit(
        hart::supervisor_entry_status(s, origin),
        i,
    ) == (if i == 1 {
        false
    } else if i == 5 {
        bit(s, 1)
    } else if i == 8 {
        origin != Privilege::User
    } else {
        bit(s, i)
    }) by {
        bits::lemma_bit_updates(s, 8, i, 0);
        bits::lemma_bit_updates(s, 8, 1, 0);
        bits::lemma_bit_updates(p, 1, i, 0);
        bits::lemma_bit_updates(p, 5, i, 0);
        bits::lemma_bit_updates(q, 1, i, 0);
    }
}

proof fn lemma_machine_entered(s: u64, origin: Privilege)
    ensures
        machine_entered(s, hart::machine_entry_status(s, origin), origin),
{
    let c = origin.code();
    let p = (s & !0x1800u64) | (c << 11u32);
    let q = hart::raise_or_clear(p, 0x8, 0x80);
    assert forall|i: u64| i < 64 implies #[trigger] bit(hart::machine_entry_status(s, origin), i)
        == (if i == 3 {
        false
    } else if i == 7 {
        bit(s, 3)
    } else if i == 11 {
        origin != Privilege::User
    } else if i == 12 {
        origin == Privilege::Machine
    } else {
        bit(s, i)
    }) by {
        bits::lemma_bit_updates(s, 3, i, c);
        bits::lemma_bit_updates(s, 3, 3, c);
        bits::lemma_bit_updates(p, 3, i, 0);
        bits::lemma_bit_updates(p, 7, i, 0);
        bits::lemma_bit_updates(q, 3, i, 0);
    }
}

proof fn lemma_supervisor_left(s: u64)
    ensures
        supervisor_left(
            s,
            ((hart::raise_or_clear(s, 0x20, 0x2) | 0x20) & !0x100u64) & !0x2_0000u64,
        ),
{
    let q = hart::raise_or_clear(s, 0x20, 0x2);
    assert forall|i: u64| i < 64 implies #[trigger] bit(
        ((q | 0x20) & !0x100u64) & !0x2_0000u64,
        i,
    ) == (if i == 1 {
        bit(s, 5)
    } else if i == 5 {
        true
    } else if i == 8 || i == 17 {
        false
    } else {
        bit(s, i)
    }) by {
        bits::lemma_bit_updates(s, 5, i, 0);
        bits::lemma_bit_updates(s, 1, i, 0);
        bits::lemma_bit_updates(q, 5, i, 0);
        bits::lemma_bit_updates(q | 0x20, 8, i, 0);
        bits::lemma_bit_updates((q | 0x20) & !0x100u64, 17, i, 0);
    }
}

pub proof fn lemma_kept_level(s: u64)
    ensures
        (s & 0x1800) >> 11u32 == kept_level(s),
        Privilege::of_mpp(s) matches Some(level) ==> level.code() == kept_level(s),
        Privilege::of_mpp(s) is None <==> kept_level(s) == 2,
{
    bits::lemma_bit_updates(s, 11, 11, 0);
    bits::lemma_bit_updates(s, 12, 12, 0);
}

proof fn lemma_machine_left(s: u64)
    requires
        Privilege::of_mpp(s) is Some,
    ensures
        machine_left(s, HartState::mret_status(s, Privilege::of_mpp(s)->Some_0)),
{
    lemma_kept_level(s);
    let q = hart::raise_or_clear(s, 0x80, 0x8);
    let r = (q | 0x80) & !0x1800u64;
    assert forall|i: u64| i < 64 implies #[trigger] bit(
        HartState::mret_status(s, Privilege::of_mpp(s)->Some_0),
        i,
    ) == (if i == 3 {
        bit(s, 7)
    } else if i == 7 {
        true
    } else if i == 11 || i == 12 {
        false
    } else if i == 17 {
        bit(s, 17) && kept_level(s) == 3
    } else {
        bit(s, i)
    }) by {
        bits::lemma_bit_updates(s, 7, i, 0);
        bits::lemma_bit_updates(s, 3, i, 0);
        bits::lemma_bit_updates(q, 7, i, 0);
        bits::lemma_bit_updates(q | 0x80, 0, i, 0);
        bits::lemma_bit_updates(r, 17, i, 0);
    }
}

// Exceptions.

/// Whether an exception or an interrupt with this number goes to the
/// supervisor.
pub open spec fn delegated(hart: HartState, mask: u64, cause: u64) -> bool {
    hart.cpu.privilege != Privilege::Machine && bit(mask, cause)
}

/// A hart in a supervisor handler: it kept where it was, why it left and what
/// its status was, and nothing else changed but that its reservation is gone.
pub open spec fn in_supervisor_handler(
    before: HartState,
    after: HartState,
    epc: u64,
    cause: u64,
    value: u64,
    handler: u64,
) -> bool {
    &&& supervisor_entered(before.csrs.mstatus, after.csrs.mstatus, before.cpu.privilege)
    &&& after == HartState {
        reservation: None,
        csrs: CsrFile {
            sepc: (epc - epc % 2) as u64,
            scause: cause,
            stval: value,
            mstatus: after.csrs.mstatus,
            ..before.csrs
        },
        cpu: Cpu { privilege: Privilege::Supervisor, pc: handler, ..before.cpu },
        ..before
    }
}

/// A hart in a machine handler.
pub open spec fn in_machine_handler(
    before: HartState,
    after: HartState,
    epc: u64,
    cause: u64,
    value: u64,
    handler: u64,
) -> bool {
    &&& machine_entered(before.csrs.mstatus, after.csrs.mstatus, before.cpu.privilege)
    &&& after == HartState {
        reservation: None,
        csrs: CsrFile {
            mepc: (epc - epc % 2) as u64,
            mcause: cause,
            mtval: value,
            mstatus: after.csrs.mstatus,
            ..before.csrs
        },
        cpu: Cpu { privilege: Privilege::Machine, pc: handler, ..before.cpu },
        ..before
    }
}

/// An exception goes to the supervisor where it is delegated and did not come
/// from machine level, and to the machine level otherwise.
pub proof fn exceptions_enter_the_handler(hart: HartState, cause: u64, value: u64, pc: u64)
    requires
        cause < 64,
    ensures
        ({
            let after = hart.excepted(cause, value, pc);
            if delegated(hart, hart.csrs.medeleg, cause) {
                in_supervisor_handler(
                    hart,
                    after,
                    pc,
                    cause,
                    value,
                    (hart.csrs.stvec - hart.csrs.stvec % 4) as u64,
                )
            } else {
                in_machine_handler(
                    hart,
                    after,
                    pc,
                    cause,
                    value,
                    (hart.csrs.mtvec - hart.csrs.mtvec % 4) as u64,
                )
            }
        }),
{
    lemma_supervisor_entered(hart.csrs.mstatus, hart.cpu.privilege);
    lemma_machine_entered(hart.csrs.mstatus, hart.cpu.privilege);
    alu_laws::lemma_signed(pc);
    alu_laws::lemma_signed(hart.csrs.stvec);
    alu_laws::lemma_signed(hart.csrs.mtvec);
    bits::lemma_bit_updates(hart.csrs.medeleg, cause, cause, 0);
}

/// Where a vector sends an interrupt: to its base, or four bytes further for
/// each cause where its lowest bits are one.
pub open spec fn vectored(vector: u64, cause: u64) -> u64 {
    alu_laws::wrapped(
        vector - vector % 4 + (if vector % 4 == 1 {
            4 * cause
        } else {
            0int
        }),
    )
}

/// An interrupt keeps the next instruction and its number under the top bit.
pub proof fn interrupts_enter_the_handler(hart: HartState, cause: u64, to_supervisor: bool)
    requires
        cause < 64,
    ensures
        ({
            let after = hart.interrupted(cause, to_supervisor);
            let number = (0x8000_0000_0000_0000 + cause) as u64;
            if to_supervisor {
                in_supervisor_handler(
                    hart,
                    after,
                    hart.cpu.pc,
                    number,
                    0,
                    vectored(hart.csrs.stvec, cause),
                )
            } else {
                in_machine_handler(
                    hart,
                    after,
                    hart.cpu.pc,
                    number,
                    0,
                    vectored(hart.csrs.mtvec, cause),
                )
            }
        }),
{
    lemma_supervisor_entered(hart.csrs.mstatus, hart.cpu.privilege);
    lemma_machine_entered(hart.csrs.mstatus, hart.cpu.privilege);
    alu_laws::lemma_signed(hart.cpu.pc);
    alu_laws::lemma_signed(hart.csrs.stvec);
    alu_laws::lemma_signed(hart.csrs.mtvec);
    bits::lemma_status_bits(0, cause);
}

// Returning.

/// A supervisor return is refused to users; otherwise it goes to the kept
/// address and level, and interrupts are enabled exactly where they were.
pub proof fn supervisor_returns_restore(hart: HartState, pc: u64, instruction: u32)
    ensures
        ({
            let (after, r) = hart.sret_spec(pc, instruction);
            if hart.cpu.privilege == Privilege::User {
                after == hart && r == Err::<u64, _>(
                    MachineTrap::IllegalInstruction { pc, instruction },
                )
            } else {
                &&& r == Ok::<u64, MachineTrap>(
                    (hart.csrs.sepc - hart.csrs.sepc % 2) as u64,
                )
                &&& supervisor_left(hart.csrs.mstatus, after.csrs.mstatus)
                &&& after == HartState {
                    csrs: CsrFile { mstatus: after.csrs.mstatus, ..hart.csrs },
                    cpu: Cpu {
                        privilege: if bit(hart.csrs.mstatus, 8) {
                            Privilege::Supervisor
                        } else {
                            Privilege::User
                        },
                        ..hart.cpu
                    },
                    ..hart
                }
            }
        }),
{
    let s = hart.csrs.mstatus;
    lemma_supervisor_left(s);
    alu_laws::lemma_signed(hart.csrs.sepc);
    bits::lemma_bit_updates(s, 8, 8, 0);
}

/// A machine return is refused below machine level.
pub proof fn machine_returns_restore(hart: HartState, pc: u64, instruction: u32)
    ensures
        ({
            let (after, r) = hart.mret_spec(pc, instruction);
            let level = kept_level(hart.csrs.mstatus);
            if hart.cpu.privilege != Privilege::Machine || level == 2 {
                after == hart && r == Err::<u64, _>(
                    MachineTrap::IllegalInstruction { pc, instruction },
                )
            } else {
                &&& r == Ok::<u64, MachineTrap>(
                    (hart.csrs.mepc - hart.csrs.mepc % 2) as u64,
                )
                &&& machine_left(hart.csrs.mstatus, after.csrs.mstatus)
                &&& after == HartState {
                    csrs: CsrFile { mstatus: after.csrs.mstatus, ..hart.csrs },
                    cpu: Cpu {
                        privilege: if level == 0 {
                            Privilege::User
                        } else if level == 1 {
                            Privilege::Supervisor
                        } else {
                            Privilege::Machine
                        },
                        ..hart.cpu
                    },
                    ..hart
                }
            }
        }),
{
    let s = hart.csrs.mstatus;
    lemma_kept_level(s);
    if Privilege::of_mpp(s) is Some {
        lemma_machine_left(s);
    }
    alu_laws::lemma_signed(hart.csrs.mepc);
}

/// What a supervisor handler was entered with, its return gives back: the
/// level, the address and whether interrupts were enabled.
pub proof fn supervisor_traps_are_undone(
    before: HartState,
    inside: HartState,
    epc: u64,
    cause: u64,
    value: u64,
    handler: u64,
    pc: u64,
    instruction: u32,
)
    requires
        in_supervisor_handler(before, inside, epc, cause, value, handler),
        before.cpu.privilege != Privilege::Machine,
    ensures
        ({
            let (after, r) = inside.sret_spec(pc, instruction);
            &&& r == Ok::<u64, MachineTrap>((epc - epc % 2) as u64)
            &&& after.cpu.privilege == before.cpu.privilege
            &&& after.cpu.registers == before.cpu.registers
            &&& forall|i: u64|
                i < 64 && i != 5 && i != 8 && i != 17 ==> #[trigger] bit(after.csrs.mstatus, i)
                    == bit(before.csrs.mstatus, i)
        }),
{
    supervisor_returns_restore(inside, pc, instruction);
    let after = inside.sret_spec(pc, instruction).0;
    assert(bit(inside.csrs.mstatus, 5) == bit(before.csrs.mstatus, 1));
    assert(bit(inside.csrs.mstatus, 8) == (before.cpu.privilege != Privilege::User));
    assert forall|i: u64| i < 64 && i != 5 && i != 8 && i != 17 implies #[trigger] bit(
        after.csrs.mstatus,
        i,
    ) == bit(before.csrs.mstatus, i) by {
        assert(bit(inside.csrs.mstatus, i) == (if i == 1 {
            false
        } else {
            bit(before.csrs.mstatus, i)
        }));
    }
}

/// The same of a machine handler, whatever level it was entered from.
pub proof fn machine_traps_are_undone(
    before: HartState,
    inside: HartState,
    epc: u64,
    cause: u64,
    value: u64,
    handler: u64,
    pc: u64,
    instruction: u32,
)
    requires
        in_machine_handler(before, inside, epc, cause, value, handler),
    ensures
        ({
            let (after, r) = inside.mret_spec(pc, instruction);
            &&& r == Ok::<u64, MachineTrap>((epc - epc % 2) as u64)
            &&& after.cpu.privilege == before.cpu.privilege
            &&& after.cpu.registers == before.cpu.registers
            &&& forall|i: u64|
                i < 64 && i != 7 && i != 11 && i != 12 && i != 17 ==> #[trigger] bit(
                    after.csrs.mstatus,
                    i,
                ) == bit(before.csrs.mstatus, i)
        }),
{
    machine_returns_restore(inside, pc, instruction);
    let after = inside.mret_spec(pc, instruction).0;
    assert(bit(inside.csrs.mstatus, 7) == bit(before.csrs.mstatus, 3));
    assert(bit(inside.csrs.mstatus, 11) == (before.cpu.privilege != Privilege::User));
    assert(bit(inside.csrs.mstatus, 12) == (before.cpu.privilege == Privilege::Machine));
    assert forall|i: u64| i < 64 && i != 7 && i != 11 && i != 12 && i != 17 implies #[trigger] bit(
        after.csrs.mstatus,
        i,
    ) == bit(before.csrs.mstatus, i) by {
        assert(bit(inside.csrs.mstatus, i) == (if i == 3 {
            false
        } else {
            bit(before.csrs.mstatus, i)
        }));
    }
}

// Interrupts.

/// An interrupt can be taken now: it is pending and enabled, and the level it
/// goes to is above the current one or has its interrupts enabled.
pub open spec fn takeable(hart: HartState, cause: u64) -> bool {
    &&& bit(hart.csrs.mip, cause)
    &&& bit(hart.csrs.mie, cause)
    &&& if delegated(hart, hart.csrs.mideleg, cause) {
        hart.cpu.privilege == Privilege::User || bit(hart.csrs.mstatus, 1)
    } else {
        hart.cpu.privilege != Privilege::Machine || bit(hart.csrs.mstatus, 3)
    }
}

/// The causes in the order in which they are taken: external before software
/// before timer, and machine before supervisor.
pub open spec fn causes() -> Seq<u64> {
    seq![11, 3, 7, 9, 1, 5]
}

proof fn lemma_takeable(hart: HartState, cause: u64)
    requires
        cause < 64,
    ensures
        hart.ready_spec(cause) is Some <==> takeable(hart, cause),
        takeable(hart, cause) ==> hart.ready_spec(cause) == Some(
            delegated(hart, hart.csrs.mideleg, cause),
        ),
{
    let both = hart.csrs.mie & hart.csrs.mip;
    bits::lemma_bit_updates(both, cause, cause, 0);
    bits::lemma_bits(hart.csrs.mie, hart.csrs.mip, 0, cause, cause, cause);
    bits::lemma_bit_updates(hart.csrs.mideleg, cause, cause, 0);
    bits::lemma_bit_updates(hart.csrs.mstatus, 1, 1, 0);
    bits::lemma_bit_updates(hart.csrs.mstatus, 3, 3, 0);
}

/// The interrupt that is taken is the first that can be; where none can be,
/// none is. It goes to the supervisor where it is delegated.
pub proof fn the_first_takeable_interrupt_is_taken(hart: HartState)
    ensures
        match hart.interrupt_spec() {
            Some((cause, to_supervisor)) => exists|k: int|
                {
                    &&& 0 <= k < 6
                    &&& #[trigger] causes()[k] == cause
                    &&& takeable(hart, cause)
                    &&& to_supervisor == delegated(hart, hart.csrs.mideleg, cause)
                    &&& forall|j: int| 0 <= j < k ==> !takeable(hart, #[trigger] causes()[j])
                },
            None => forall|j: int| 0 <= j < 6 ==> !takeable(hart, #[trigger] causes()[j]),
        },
{
    lemma_takeable(hart, 11);
    lemma_takeable(hart, 3);
    lemma_takeable(hart, 7);
    lemma_takeable(hart, 9);
    lemma_takeable(hart, 1);
    lemma_takeable(hart, 5);
    assert(causes()[0] == 11 && causes()[1] == 3 && causes()[2] == 7);
    assert(causes()[3] == 9 && causes()[4] == 1 && causes()[5] == 5);
}

/// The pending bits of the hardware follow it: the software bit the mailbox,
/// and the timer bit whether the deadline has come. With firmware the timer is
/// the supervisor's; the other bits stand.
pub proof fn pending_bits_follow_the_hardware(hart: HartState, mtime: u64, firmware: bool, i: u64)
    requires
        i < 64,
    ensures
        bit(hart.refreshed(mtime, firmware).csrs.mip, i) == (if i == 3 {
            hart.msip
        } else if i == 7 {
            !firmware && mtime >= hart.timer_deadline
        } else if i == 5 && firmware {
            mtime >= hart.timer_deadline
        } else {
            bit(hart.csrs.mip, i)
        }),
        hart.refreshed(mtime, firmware) == (HartState {
            csrs: CsrFile { mip: hart.refreshed(mtime, firmware).csrs.mip, ..hart.csrs },
            ..hart
        }),
{
    let p = hart.csrs.mip;
    bits::lemma_pending(p, i);
}

} // verus!
