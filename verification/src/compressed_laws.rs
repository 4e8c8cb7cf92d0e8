//! What each sixteen-bit instruction does, told from the parts that its numbers
//! are scattered over, and from the full-width operation that it stands for.

use crate::access::Flow;
use crate::alu;
use crate::alu_laws;
use crate::bits;
use crate::compressed;
use crate::instruction_laws;
use crate::isa;
use crate::isa::MachineTrap;
use crate::machine::MachineView;
use crate::mmu;
use crate::platform::HaltStatus;
use vstd::prelude::*;

verus! {

// Fields.

/// Five bits that name a register, from bit seven on and from bit two on.
#[verifier::opaque]
pub open spec fn first(w: u16) -> int {
    ((w / 0x80) % 32) as int
}

#[verifier::opaque]
pub open spec fn second(w: u16) -> int {
    ((w / 4) % 32) as int
}

/// Three bits that name one of the registers from eight to fifteen.
#[verifier::opaque]
pub open spec fn short_first(w: u16) -> int {
    8 + (w / 0x80) % 8
}

#[verifier::opaque]
pub open spec fn short_second(w: u16) -> int {
    8 + (w / 4) % 8
}

#[verifier::opaque]
pub open spec fn at(w: u16, place: u16) -> int {
    ((w / place) % 2) as int
}

/// A number whose upper half stands for negative ones.
pub open spec fn balanced(x: int, full: int) -> int {
    if x < full / 2 {
        x
    } else {
        x - full
    }
}

/// Six bits: five from bit two on, below bit twelve.
#[verifier::opaque]
pub open spec fn six(w: u16) -> int {
    second(w) + 32 * at(w, 0x1000)
}

#[verifier::opaque]
pub open spec fn stack_step(w: u16) -> int {
    balanced(
        16 * at(w, 0x40) + 32 * at(w, 4) + 64 * at(w, 0x20) + 128 * at(w, 8) + 256 * at(w, 0x10)
            + 512 * at(w, 0x1000),
        1024,
    )
}

#[verifier::opaque]
pub open spec fn stack_offset(w: u16) -> int {
    4 * at(w, 0x40) + 8 * at(w, 0x20) + 16 * at(w, 0x800) + 32 * at(w, 0x1000) + 64 * at(w, 0x80)
        + 128 * at(w, 0x100) + 256 * at(w, 0x200) + 512 * at(w, 0x400)
}

#[verifier::opaque]
pub open spec fn jump_step(w: u16) -> int {
    balanced(
        2 * at(w, 8) + 4 * at(w, 0x10) + 8 * at(w, 0x20) + 16 * at(w, 0x800) + 32 * at(w, 4) + 64
            * at(w, 0x80) + 128 * at(w, 0x40) + 256 * at(w, 0x200) + 512 * at(w, 0x400) + 1024
            * at(w, 0x100) + 2048 * at(w, 0x1000),
        4096,
    )
}

#[verifier::opaque]
pub open spec fn branch_step(w: u16) -> int {
    balanced(
        2 * at(w, 8) + 4 * at(w, 0x10) + 8 * at(w, 0x400) + 16 * at(w, 0x800) + 32 * at(w, 4) + 64
            * at(w, 0x20) + 128 * at(w, 0x40) + 256 * at(w, 0x1000),
        512,
    )
}

/// Offsets of words and of doublewords from a short register.
#[verifier::opaque]
pub open spec fn word_offset(w: u16) -> int {
    4 * at(w, 0x40) + 8 * at(w, 0x400) + 16 * at(w, 0x800) + 32 * at(w, 0x1000) + 64 * at(w, 0x20)
}

#[verifier::opaque]
pub open spec fn double_offset(w: u16) -> int {
    8 * at(w, 0x400) + 16 * at(w, 0x800) + 32 * at(w, 0x1000) + 64 * at(w, 0x20) + 128 * at(
        w,
        0x40,
    )
}

/// Offsets from the stack pointer, of loads and of stores.
#[verifier::opaque]
pub open spec fn stack_word(w: u16) -> int {
    4 * at(w, 0x10) + 8 * at(w, 0x20) + 16 * at(w, 0x40) + 32 * at(w, 0x1000) + 64 * at(w, 4) + 128
        * at(w, 8)
}

#[verifier::opaque]
pub open spec fn stack_double(w: u16) -> int {
    8 * at(w, 0x20) + 16 * at(w, 0x40) + 32 * at(w, 0x1000) + 64 * at(w, 4) + 128 * at(w, 8) + 256
        * at(w, 0x10)
}

#[verifier::opaque]
pub open spec fn stack_word_store(w: u16) -> int {
    4 * at(w, 0x200) + 8 * at(w, 0x400) + 16 * at(w, 0x800) + 32 * at(w, 0x1000) + 64 * at(w, 0x80)
        + 128 * at(w, 0x100)
}

#[verifier::opaque]
pub open spec fn stack_double_store(w: u16) -> int {
    8 * at(w, 0x400) + 16 * at(w, 0x800) + 32 * at(w, 0x1000) + 64 * at(w, 0x80) + 128 * at(
        w,
        0x100,
    ) + 256 * at(w, 0x200)
}

proof fn lemma_fields(w: u16)
    ensures
        w & 3 == w % 4,
        w >> 13 == w / 0x2000,
        compressed::full_register(w, 7) == first(w),
        compressed::full_register(w, 2) == second(w),
        compressed::short_register(w, 7) == short_first(w),
        compressed::short_register(w, 2) == short_second(w),
        (w >> 12) & 1 == at(w, 0x1000),
        (w >> 5) & 3 == (w / 0x20) % 4,
        (w >> 10) & 3 == (w / 0x400) % 4,
        compressed::shift_amount(w) == six(w),
        0 <= six(w) < 64,
        0 <= first(w) < 32,
        0 <= second(w) < 32,
        8 <= short_first(w) < 16,
        8 <= short_second(w) < 16,
        0 <= at(w, 0x1000) < 2,
{
    reveal(first);
    reveal(second);
    reveal(short_first);
    reveal(short_second);
    reveal(at);
    reveal(six);
    bits::lemma_half_fields(w);
}

proof fn lemma_extended(v: u64, bits: u32, full: u64, x: int)
    requires
        bits == 6 && full == 0x40 || bits == 9 && full == 0x200 || bits == 10 && full == 0x400
            || bits == 12 && full == 0x1000,
        v % full == x,
    ensures
        isa::sext(v, bits) == alu_laws::wrapped(balanced(x, full as int)),
{
    alu_laws::lemma_extended(v, bits, full);
}

proof fn lemma_small(w: u16)
    ensures
        compressed::small_imm(w) == alu_laws::wrapped(balanced(six(w), 64)),
{
    reveal(six);
    reveal(second);
    reveal(at);
    let small = ((w >> 2) & 0x1f) as u64 | (((w >> 12) as u64) << 5);
    assert(small % 64 == six(w)) by {
        bits::lemma_half_immediates(w as u64);
    }
    lemma_extended(small, 6, 0x40, six(w));
}

proof fn lemma_bits(w: u16)
    ensures
        forall|place: u16| place > 0 ==> 0 <= #[trigger] at(w, place) <= 1,
{
    reveal(at);
}

proof fn lemma_stack_step(w: u16)
    ensures
        compressed::addi16sp_imm(w) == alu_laws::wrapped(stack_step(w)),
        -512 <= stack_step(w) < 512,
{
    reveal(stack_step);
    let v = compressed::placed(w, 12, 0x1, 9) | compressed::placed(w, 6, 0x1, 4)
        | compressed::placed(w, 5, 0x1, 6) | compressed::placed(w, 3, 0x3, 7)
        | compressed::placed(w, 2, 0x1, 5);
    let x = 16 * at(w, 0x40) + 32 * at(w, 4) + 64 * at(w, 0x20) + 128 * at(w, 8) + 256 * at(w, 0x10)
        + 512 * at(w, 0x1000);
    lemma_bits(w);
    assert(v == x) by {
        reveal(at);
        bits::lemma_half_immediates(w as u64);
    }
    lemma_extended(v, 10, 0x400, x);
}

proof fn lemma_jump_step(w: u16)
    ensures
        compressed::jump_imm(w) == alu_laws::wrapped(jump_step(w)),
        -2048 <= jump_step(w) < 2048,
        jump_step(w) % 2 == 0,
{
    reveal(jump_step);
    let v = compressed::placed(w, 12, 0x1, 11) | compressed::placed(w, 11, 0x1, 4)
        | compressed::placed(w, 9, 0x3, 8) | compressed::placed(w, 8, 0x1, 10)
        | compressed::placed(w, 7, 0x1, 6) | compressed::placed(w, 6, 0x1, 7) | compressed::placed(
        w,
        3,
        0x7,
        1,
    ) | compressed::placed(w, 2, 0x1, 5);
    let x = 2 * at(w, 8) + 4 * at(w, 0x10) + 8 * at(w, 0x20) + 16 * at(w, 0x800) + 32 * at(w, 4)
        + 64 * at(w, 0x80) + 128 * at(w, 0x40) + 256 * at(w, 0x200) + 512 * at(w, 0x400) + 1024
        * at(w, 0x100) + 2048 * at(w, 0x1000);
    lemma_bits(w);
    let half = at(w, 8) + 2 * at(w, 0x10) + 4 * at(w, 0x20) + 8 * at(w, 0x800) + 16 * at(w, 4)
        + 32 * at(w, 0x80) + 64 * at(w, 0x40) + 128 * at(w, 0x200) + 256 * at(w, 0x400) + 512
        * at(w, 0x100) + 1024 * at(w, 0x1000);
    assert(x == 2 * half);
    assert(v == x) by {
        reveal(at);
        bits::lemma_half_immediates(w as u64);
    }
    lemma_extended(v, 12, 0x1000, x);
}

proof fn lemma_branch_step(w: u16)
    ensures
        compressed::branch_imm(w) == alu_laws::wrapped(branch_step(w)),
        -256 <= branch_step(w) < 256,
        branch_step(w) % 2 == 0,
{
    reveal(branch_step);
    let v = compressed::placed(w, 12, 0x1, 8) | compressed::placed(w, 10, 0x3, 3)
        | compressed::placed(w, 5, 0x3, 6) | compressed::placed(w, 3, 0x3, 1) | compressed::placed(
        w,
        2,
        0x1,
        5,
    );
    let x = 2 * at(w, 8) + 4 * at(w, 0x10) + 8 * at(w, 0x400) + 16 * at(w, 0x800) + 32 * at(w, 4)
        + 64 * at(w, 0x20) + 128 * at(w, 0x40) + 256 * at(w, 0x1000);
    lemma_bits(w);
    let half = at(w, 8) + 2 * at(w, 0x10) + 4 * at(w, 0x400) + 8 * at(w, 0x800) + 16 * at(w, 4)
        + 32 * at(w, 0x20) + 64 * at(w, 0x40) + 128 * at(w, 0x1000);
    assert(x == 2 * half);
    assert(v == x) by {
        reveal(at);
        bits::lemma_half_immediates(w as u64);
    }
    lemma_extended(v, 9, 0x200, x);
}

proof fn lemma_offsets(w: u16)
    ensures
        compressed::addi4spn_imm(w) == stack_offset(w),
        compressed::word_imm(w) == word_offset(w),
        compressed::double_imm(w) == double_offset(w),
        compressed::word_sp_imm(w) == stack_word(w),
        compressed::double_sp_imm(w) == stack_double(w),
        compressed::word_store_sp_imm(w) == stack_word_store(w),
        compressed::double_store_sp_imm(w) == stack_double_store(w),
{
    reveal(at);
    reveal(stack_offset);
    reveal(word_offset);
    reveal(double_offset);
    reveal(stack_word);
    reveal(stack_double);
    reveal(stack_word_store);
    reveal(stack_double_store);
    bits::lemma_half_immediates(w as u64);
}

/// Each number is put together from the bits that it is scattered over.
pub proof fn scattered_numbers_are_put_together(w: u16)
    ensures
        compressed::small_imm(w) == alu_laws::wrapped(balanced(six(w), 64)),
        compressed::addi16sp_imm(w) == alu_laws::wrapped(stack_step(w)),
        compressed::jump_imm(w) == alu_laws::wrapped(jump_step(w)),
        compressed::branch_imm(w) == alu_laws::wrapped(branch_step(w)),
        compressed::addi4spn_imm(w) == stack_offset(w),
        compressed::word_imm(w) == word_offset(w),
        compressed::double_imm(w) == double_offset(w),
        compressed::word_sp_imm(w) == stack_word(w),
        compressed::double_sp_imm(w) == stack_double(w),
        compressed::word_store_sp_imm(w) == stack_word_store(w),
        compressed::double_store_sp_imm(w) == stack_double_store(w),
        -512 <= stack_step(w) < 512,
        -2048 <= jump_step(w) < 2048,
        jump_step(w) % 2 == 0,
        -256 <= branch_step(w) < 256,
        branch_step(w) % 2 == 0,
{
    lemma_small(w);
    lemma_stack_step(w);
    lemma_jump_step(w);
    lemma_branch_step(w);
    lemma_offsets(w);
}

// Arithmetic.

proof fn lemma_computes(m: MachineView, rd: int, value: u64, pc: u64)
    requires
        instruction_laws::placed(m),
        0 <= rd < 32,
    ensures
        instruction_laws::only_register(m, m.computes(rd, value, pc.wrapping_add(2)).0, rd, value),
        m.computes(rd, value, pc.wrapping_add(2)).1 == instruction_laws::on(pc + 2),
{
    instruction_laws::lemma_computes(m, rd, value, pc.wrapping_add(2));
}

/// What an instruction that leaves one result does.
pub open spec fn leaves(
    m: MachineView,
    done: (MachineView, Flow),
    rd: int,
    value: u64,
    pc: u64,
) -> bool {
    &&& instruction_laws::only_register(m, done.0, rd, value)
    &&& done.1 == instruction_laws::on(pc + 2)
}

pub open spec fn refused(m: MachineView, done: (MachineView, Flow), w: u16, pc: u64) -> bool {
    &&& done.0 == m
    &&& done.1 == Err::<(u64, Option<HaltStatus>), _>(
        MachineTrap::IllegalInstruction { pc, instruction: w as u32 },
    )
}

/// The number that the low half of a sum stands for.
pub open spec fn word_sum(a: u64, b: int) -> u64 {
    alu_laws::wrapped(balanced((a + b) % 0x1_0000_0000, 0x1_0000_0000))
}

proof fn lemma_word_sum(a: u64, b: int, w: u32)
    requires
        w == (a + b) % 0x1_0000_0000,
    ensures
        isa::sext(w as u64, 32) == word_sum(a, b),
{
    alu_laws::lemma_word_extended(w);
}

/// Small numbers are added to a register, as 64 or as 32 bits, or replace it;
/// those of the stack pointer move it by sixteens, or give an address above it.
#[verifier::rlimit(50)]
pub proof fn numbers_are_added(m: MachineView, w: u16, pc: u64)
    requires
        instruction_laws::placed(m),
    ensures
        ({
            let done = compressed::compressed_spec(m, w, pc);
            let number = balanced(six(w), 64);
            let rd = first(w);
            &&& w % 4 == 1 && w / 0x2000 == 0 ==> leaves(
                m,
                done,
                rd,
                alu_laws::wrapped(m.reg(rd) + number),
                pc,
            )
            &&& w % 4 == 1 && w / 0x2000 == 1 ==> if rd == 0 {
                refused(m, done, w, pc)
            } else {
                leaves(m, done, rd, word_sum(m.reg(rd), number), pc)
            }
            &&& w % 4 == 1 && w / 0x2000 == 2 ==> leaves(
                m,
                done,
                rd,
                alu_laws::wrapped(number),
                pc,
            )
            &&& w % 4 == 1 && w / 0x2000 == 3 && rd == 2 ==> if stack_step(w) == 0 {
                refused(m, done, w, pc)
            } else {
                leaves(m, done, 2, alu_laws::wrapped(m.reg(2) + stack_step(w)), pc)
            }
            &&& w % 4 == 1 && w / 0x2000 == 3 && rd != 2 ==> if rd == 0 || number == 0 {
                refused(m, done, w, pc)
            } else {
                leaves(m, done, rd, alu_laws::wrapped(number * 4096), pc)
            }
            &&& w % 4 == 0 && w / 0x2000 == 0 ==> if stack_offset(w) == 0 {
                refused(m, done, w, pc)
            } else {
                leaves(
                    m,
                    done,
                    short_second(w),
                    alu_laws::wrapped(m.reg(2) + stack_offset(w)),
                    pc,
                )
            }
        }),
{
    lemma_fields(w);
    scattered_numbers_are_put_together(w);
    let number = balanced(six(w), 64);
    let small = compressed::small_imm(w);
    let rd = first(w);
    let group = w / 0x2000;
    if w % 4 == 0 && group == 0 {
        reveal(compressed::quadrant0_spec);
        let offset = compressed::addi4spn_imm(w);
        assert(m.reg(2).wrapping_add(offset) == alu_laws::wrapped(m.reg(2) + stack_offset(w)));
        lemma_computes(m, short_second(w), m.reg(2).wrapping_add(offset), pc);
    } else if w % 4 == 1 && group == 0 {
        reveal(compressed::quadrant1_spec);
        lemma_sum(m.reg(rd), small, number);
        lemma_computes(m, rd, m.reg(rd).wrapping_add(small), pc);
    } else if w % 4 == 1 && group == 1 {
        reveal(compressed::quadrant1_spec);
        lemma_short_sum(m.reg(rd), small, number);
        let sum = (m.reg(rd) as u32).wrapping_add(small as u32);
        lemma_computes(m, rd, isa::sext(sum as u64, 32), pc);
    } else if w % 4 == 1 && group == 2 {
        reveal(compressed::quadrant1_spec);
        lemma_computes(m, rd, small, pc);
    } else if w % 4 == 1 && group == 3 {
        reveal(compressed::quadrant1_spec);
        if rd == 2 {
            lemma_sum(m.reg(2), compressed::addi16sp_imm(w), stack_step(w));
            lemma_computes(m, 2, m.reg(2).wrapping_add(compressed::addi16sp_imm(w)), pc);
        } else {
            lemma_upper(small, number);
            lemma_computes(m, rd, small << 12, pc);
        }
    }
}

proof fn lemma_sum(a: u64, moved: u64, step: int)
    requires
        moved == alu_laws::wrapped(step),
        -512 <= step < 512,
    ensures
        a.wrapping_add(moved) == alu_laws::wrapped(a + step),
        moved == 0 <==> step == 0,
{
    if step < 0 {
        assert(moved == step + 0x1_0000_0000_0000_0000);
    } else {
        assert(moved == step);
    }
}

proof fn lemma_short_sum(a: u64, small: u64, number: int)
    requires
        small == alu_laws::wrapped(number),
        -32 <= number < 32,
    ensures
        isa::sext((a as u32).wrapping_add(small as u32) as u64, 32) == word_sum(a, number),
{
    let sum = (a as u32).wrapping_add(small as u32);
    assert(small as u32 == small % 0x1_0000_0000 && a as u32 == a % 0x1_0000_0000) by {
        alu_laws::lemma_signed(small);
        alu_laws::lemma_signed(a);
    }
    if number < 0 {
        assert(small == number + 0x1_0000_0000_0000_0000);
        assert(small as u32 == number + 0x1_0000_0000);
    } else {
        assert(small == number);
    }
    assert(sum == (a + number) % 0x1_0000_0000);
    lemma_word_sum(a, number, sum);
}

proof fn lemma_upper(small: u64, number: int)
    requires
        small == alu_laws::wrapped(number),
        -32 <= number < 32,
    ensures
        small << 12 == alu_laws::wrapped(number * 4096),
        small << 12 == 0 <==> number == 0,
{
    bits::lemma_status_bits(small, 0);
    if number < 0 {
        assert(small == number + 0x1_0000_0000_0000_0000);
    } else {
        assert(small == number);
    }
}

/// Shifts by a number, and operations between registers: each leaves what the
/// full-width operation of the same name leaves.
pub proof fn short_operations_are_the_full_ones(m: MachineView, w: u16, pc: u64)
    requires
        instruction_laws::placed(m),
    ensures
        ({
            let done = compressed::compressed_spec(m, w, pc);
            let rd = short_first(w);
            let a = m.reg(rd);
            let b = m.reg(short_second(w));
            let amount = six(w) as u64;
            let kind = (w / 0x400) % 4;
            let which = (w / 0x20) % 4;
            &&& w % 4 == 2 && w / 0x2000 == 0 ==> leaves(
                m,
                done,
                first(w),
                alu::op_spec(0, 1, m.reg(first(w)), amount)->Some_0,
                pc,
            )
            &&& w % 4 == 1 && w / 0x2000 == 4 ==> if kind == 0 {
                leaves(m, done, rd, alu::op_spec(0, 5, a, amount)->Some_0, pc)
            } else if kind == 1 {
                leaves(m, done, rd, alu::op_spec(0x20, 5, a, amount)->Some_0, pc)
            } else if kind == 2 {
                leaves(
                    m,
                    done,
                    rd,
                    alu::op_spec(0, 7, a, alu_laws::wrapped(balanced(six(w), 64)))->Some_0,
                    pc,
                )
            } else if at(w, 0x1000) == 0 {
                if which == 0 {
                    leaves(m, done, rd, alu_laws::wrapped(a - b), pc)
                } else if which == 1 {
                    leaves(m, done, rd, alu::op_spec(0, 4, a, b)->Some_0, pc)
                } else if which == 2 {
                    leaves(m, done, rd, alu::op_spec(0, 6, a, b)->Some_0, pc)
                } else {
                    leaves(m, done, rd, alu::op_spec(0, 7, a, b)->Some_0, pc)
                }
            } else if which == 0 {
                leaves(m, done, rd, word_sum(a, -b), pc)
            } else if which == 1 {
                leaves(m, done, rd, word_sum(a, b as int), pc)
            } else {
                refused(m, done, w, pc)
            }
        }),
{
    lemma_fields(w);
    let rd = short_first(w);
    let a = m.reg(rd);
    let b = m.reg(short_second(w));
    let amount = six(w) as u64;
    let kind = (w / 0x400) % 4;
    let which = (w / 0x20) % 4;
    if w % 4 == 2 && w / 0x2000 == 0 {
        reveal(compressed::quadrant2_spec);
        lemma_amount(m.reg(first(w)), amount, compressed::shift_amount(w));
        lemma_computes(m, first(w), m.reg(first(w)) << compressed::shift_amount(w), pc);
    } else if w % 4 == 1 && w / 0x2000 == 4 {
        reveal(compressed::quadrant1_spec);
        reveal(compressed::arithmetic_spec);
        if kind == 0 {
            lemma_amount(a, amount, compressed::shift_amount(w));
            lemma_computes(m, rd, a >> compressed::shift_amount(w), pc);
        } else if kind == 1 {
            lemma_amount(a, amount, compressed::shift_amount(w));
            lemma_computes(m, rd, ((a as i64) >> compressed::shift_amount(w)) as u64, pc);
        } else if kind == 2 {
            scattered_numbers_are_put_together(w);
            lemma_computes(m, rd, a & compressed::small_imm(w), pc);
        } else if at(w, 0x1000) == 0 {
            if which == 0 {
                lemma_computes(m, rd, a.wrapping_sub(b), pc);
            } else if which == 1 {
                lemma_computes(m, rd, a ^ b, pc);
            } else if which == 2 {
                lemma_computes(m, rd, a | b, pc);
            } else {
                lemma_computes(m, rd, a & b, pc);
            }
        } else if which < 2 {
            lemma_words(a, b);
            let difference = (a as u32).wrapping_sub(b as u32);
            let sum = (a as u32).wrapping_add(b as u32);
            lemma_computes(m, rd, isa::sext(difference as u64, 32), pc);
            lemma_computes(m, rd, isa::sext(sum as u64, 32), pc);
        }
    }
}

proof fn lemma_amount(a: u64, amount: u64, shift: u8)
    requires
        amount < 64,
        shift == amount,
    ensures
        alu::op_spec(0, 1, a, amount) == Some(a << shift),
        alu::op_spec(0, 5, a, amount) == Some(a >> shift),
        alu::op_spec(0x20, 5, a, amount) == Some(((a as i64) >> shift) as u64),
{
    bits::lemma_masks(amount);
}

proof fn lemma_words(a: u64, b: u64)
    ensures
        isa::sext((a as u32).wrapping_sub(b as u32) as u64, 32) == word_sum(a, -b),
        isa::sext((a as u32).wrapping_add(b as u32) as u64, 32) == word_sum(a, b as int),
{
    assert(b as u32 == b % 0x1_0000_0000 && a as u32 == a % 0x1_0000_0000) by {
        alu_laws::lemma_signed(b);
        alu_laws::lemma_signed(a);
    }
    let difference = (a as u32).wrapping_sub(b as u32);
    let sum = (a as u32).wrapping_add(b as u32);
    assert(difference == (a - b) % 0x1_0000_0000);
    assert(sum == (a + b) % 0x1_0000_0000);
    lemma_word_sum(a, -b, difference);
    lemma_word_sum(a, b as int, sum);
}

/// Moves, additions and jumps through a register; a jump that links leaves the
/// address behind itself in register one.
pub proof fn register_forms_move_add_and_jump(m: MachineView, w: u16, pc: u64)
    requires
        instruction_laws::placed(m),
        w % 4 == 2,
        w / 0x2000 == 4,
    ensures
        ({
            let done = compressed::compressed_spec(m, w, pc);
            let a = m.reg(first(w));
            let b = m.reg(second(w));
            let target = (a - a % 2) as u64;
            if second(w) != 0 {
                leaves(
                    m,
                    done,
                    first(w),
                    if at(w, 0x1000) == 0 {
                        b
                    } else {
                        alu_laws::wrapped(a + b)
                    },
                    pc,
                )
            } else if first(w) != 0 {
                if at(w, 0x1000) == 0 {
                    done == (m, Ok::<(u64, Option<HaltStatus>), MachineTrap>((target, None)))
                } else {
                    &&& instruction_laws::only_register(m, done.0, 1, alu_laws::wrapped(pc + 2))
                    &&& done.1 == Ok::<(u64, Option<HaltStatus>), MachineTrap>((target, None))
                }
            } else if at(w, 0x1000) == 0 {
                refused(m, done, w, pc)
            } else {
                done == (m, Err::<(u64, Option<HaltStatus>), _>(MachineTrap::Breakpoint { pc }))
            }
        }),
{
    reveal(compressed::quadrant2_spec);
    reveal(compressed::register_group_spec);
    lemma_fields(w);
    let a = m.reg(first(w));
    let b = m.reg(second(w));
    alu_laws::lemma_signed(a);
    alu_laws::lemma_signed((a - a % 2) as u64);
    lemma_computes(m, first(w), b, pc);
    lemma_computes(m, first(w), a.wrapping_add(b), pc);
    instruction_laws::lemma_computes(m, 1, pc.wrapping_add(2), (a - a % 2) as u64);
}

/// Direct jumps go by their step; branches do where a register is zero, or where
/// it is not.
pub proof fn short_jumps_go_by_their_step(m: MachineView, w: u16, pc: u64)
    requires
        pc % 2 == 0,
        w % 4 == 1,
        w / 0x2000 >= 5,
    ensures
        compressed::compressed_spec(m, w, pc) == (
            m,
            instruction_laws::on(
                pc + (if w / 0x2000 == 5 {
                    jump_step(w)
                } else if (m.reg(short_first(w)) == 0) == (w / 0x2000 == 6) {
                    branch_step(w)
                } else {
                    2
                }),
            ),
        ),
{
    reveal(compressed::quadrant1_spec);
    lemma_fields(w);
    lemma_jump_step(w);
    lemma_branch_step(w);
    lemma_even(pc, compressed::jump_imm(w), jump_step(w));
    lemma_even(pc, compressed::branch_imm(w), branch_step(w));
}

proof fn lemma_even(pc: u64, moved: u64, step: int)
    requires
        pc % 2 == 0,
        step % 2 == 0,
        -2048 <= step < 2048,
        moved == alu_laws::wrapped(step),
    ensures
        pc.wrapping_add(moved) == alu_laws::wrapped(pc + step),
        pc.wrapping_add(moved) & 1 == 0,
{
    let target = pc.wrapping_add(moved);
    if step < 0 {
        assert(moved == step + 0x1_0000_0000_0000_0000);
    } else {
        assert(moved == step);
    }
    assert(target % 2 == 0);
    assert(target & 1 == target % 2) by {
        bits::lemma_masks(target);
    }
}

// Memory.

/// What a load into a register does.
pub open spec fn fetches(
    m: MachineView,
    done: (MachineView, Flow),
    address: int,
    bytes: u8,
    rd: int,
    pc: u64,
) -> bool {
    let (read, result) = mmu::load_spec(m, alu_laws::wrapped(address), bytes, true);
    match result {
        Ok(value) => done == (
            read.set_reg(
                rd,
                if bytes == 4 {
                    alu_laws::wrapped(alu_laws::short(value, 0x1_0000_0000))
                } else {
                    value
                },
            ),
            instruction_laws::on(pc + 2),
        ),
        Err(trap) => done == (read, Err::<(u64, Option<HaltStatus>), _>(trap)),
    }
}

/// What a store of a value does.
pub open spec fn keeps(
    m: MachineView,
    done: (MachineView, Flow),
    address: int,
    bytes: u8,
    value: u64,
    pc: u64,
) -> bool {
    let (written, result) = mmu::store_spec(m, alu_laws::wrapped(address), value, bytes, true);
    match result {
        Ok(halt) => done == (written, Ok::<_, MachineTrap>((alu_laws::wrapped(pc + 2), halt))),
        Err(trap) => done == (written, Err::<(u64, Option<HaltStatus>), _>(trap)),
    }
}

/// Words and doublewords are loaded and stored at an offset from a short
/// register, or from the stack pointer.
#[verifier::rlimit(50)]
pub proof fn short_accesses_go_by_their_offset(m: MachineView, w: u16, pc: u64)
    ensures
        ({
            let done = compressed::compressed_spec(m, w, pc);
            let base = m.reg(short_first(w));
            let stack = m.reg(2);
            let group = w / 0x2000;
            &&& w % 4 == 0 && group == 2 ==> fetches(
                m,
                done,
                base + word_offset(w),
                4,
                short_second(w),
                pc,
            )
            &&& w % 4 == 0 && group == 3 ==> fetches(
                m,
                done,
                base + double_offset(w),
                8,
                short_second(w),
                pc,
            )
            &&& w % 4 == 0 && group == 6 ==> keeps(
                m,
                done,
                base + word_offset(w),
                4,
                m.reg(short_second(w)),
                pc,
            )
            &&& w % 4 == 0 && group == 7 ==> keeps(
                m,
                done,
                base + double_offset(w),
                8,
                m.reg(short_second(w)),
                pc,
            )
            &&& w % 4 == 2 && (group == 2 || group == 3) && first(w) == 0 ==> refused(
                m,
                done,
                w,
                pc,
            )
            &&& w % 4 == 2 && group == 2 && first(w) != 0 ==> fetches(
                m,
                done,
                stack + stack_word(w),
                4,
                first(w),
                pc,
            )
            &&& w % 4 == 2 && group == 3 && first(w) != 0 ==> fetches(
                m,
                done,
                stack + stack_double(w),
                8,
                first(w),
                pc,
            )
            &&& w % 4 == 2 && group == 6 ==> keeps(
                m,
                done,
                stack + stack_word_store(w),
                4,
                m.reg(second(w)),
                pc,
            )
            &&& w % 4 == 2 && group == 7 ==> keeps(
                m,
                done,
                stack + stack_double_store(w),
                8,
                m.reg(second(w)),
                pc,
            )
            &&& w % 4 == 0 && group == 4 ==> refused(m, done, w, pc)
        }),
{
    lemma_fields(w);
    lemma_offsets(w);
    let base = m.reg(short_first(w));
    let stack = m.reg(2);
    if w % 4 == 0 {
        reveal(compressed::quadrant0_spec);
        let short = compressed::word_imm(w);
        let long = compressed::double_imm(w);
        lemma_place(base, short, word_offset(w));
        lemma_place(base, long, double_offset(w));
        lemma_loaded(mmu::load_spec(m, base.wrapping_add(short), 4, true).1->Ok_0);
    } else if w % 4 == 2 {
        reveal(compressed::quadrant2_spec);
        let near = compressed::word_sp_imm(w);
        lemma_place(stack, near, stack_word(w));
        lemma_place(stack, compressed::double_sp_imm(w), stack_double(w));
        lemma_place(stack, compressed::word_store_sp_imm(w), stack_word_store(w));
        lemma_place(stack, compressed::double_store_sp_imm(w), stack_double_store(w));
        lemma_loaded(mmu::load_spec(m, stack.wrapping_add(near), 4, true).1->Ok_0);
    }
}

proof fn lemma_place(base: u64, offset: u64, number: int)
    requires
        offset == number,
    ensures
        base.wrapping_add(offset) == alu_laws::wrapped(base + number),
{
}

proof fn lemma_loaded(value: u64)
    ensures
        isa::sext(value, 32) == alu_laws::wrapped(alu_laws::short(value, 0x1_0000_0000)),
{
    alu_laws::lemma_extended(value, 32, 0x1_0000_0000);
}

} // verus!
