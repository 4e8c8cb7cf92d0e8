use aos_realm::floating::{
    float_class32, float_compare64, float_rounding, float_select32, float_sign_injection64,
    float_to_integer64, integer_to_float32, integer_to_float64,
};
use aos_realm::isa::{
    Csr, MachineTrap, CANONICAL_NAN_F32, CANONICAL_NAN_F64, FFLAGS_NV, FFLAGS_NX, MSTATUS_FS,
    MSTATUS_FS_DIRTY, MSTATUS_FS_INITIAL, MSTATUS_FS_OFF,
};
use aos_realm::machine::Machine;
use aos_realm::platform::MachineConfig;
use aos_realm::softfloat::{Rounding, STATUS_INEXACT, STATUS_INVALID_OP};

fn float_op(funct7: u32, rs2: u32, rounding: u32) -> u32 {
    (funct7 << 25) | (rs2 << 20) | (1 << 15) | (rounding << 12) | (3 << 7) | 0x53
}

fn fused(opcode: u32, format: u32) -> u32 {
    (4 << 27) | (format << 25) | (2 << 20) | (1 << 15) | (3 << 7) | opcode
}

fn machine(instruction: u32) -> Machine {
    let mut machine = Machine::new(MachineConfig {
        ram_bytes: 4096,
        max_console_bytes: 8,
    })
    .expect("valid machine");
    machine
        .load_program(&instruction.to_le_bytes())
        .expect("load one instruction");
    machine.harts[0].csrs.mstatus = MSTATUS_FS_INITIAL;
    machine
}

fn run32(instruction: u32, operands: &[f32]) -> u32 {
    let mut machine = machine(instruction);
    for (index, register) in [1, 2, 4].into_iter().enumerate() {
        if let Some(operand) = operands.get(index) {
            machine.harts[0].cpu.write_float32(register, operand.to_bits());
        }
    }
    assert_eq!(machine.run_slice(1).instructions_retired, 1);
    machine.harts[0].cpu.read_float32(3)
}

fn run64(instruction: u32, operands: &[f64]) -> u64 {
    let mut machine = machine(instruction);
    for (index, register) in [1, 2, 4].into_iter().enumerate() {
        if let Some(operand) = operands.get(index) {
            machine.harts[0].cpu.write_float64(register, operand.to_bits());
        }
    }
    assert_eq!(machine.run_slice(1).instructions_retired, 1);
    machine.harts[0].cpu.read_float64(3)
}

#[test]
fn single_arithmetic_matches_the_host() {
    for (a, b) in [(1.5_f32, 2.25_f32), (0.1, 0.2), (-7.0, 3.0), (1.0e30, 1.0e-30)] {
        assert_eq!(run32(float_op(0x00, 2, 0), &[a, b]), (a + b).to_bits());
        assert_eq!(run32(float_op(0x04, 2, 0), &[a, b]), (a - b).to_bits());
        assert_eq!(run32(float_op(0x08, 2, 0), &[a, b]), (a * b).to_bits());
        assert_eq!(run32(float_op(0x0c, 2, 0), &[a, b]), (a / b).to_bits());
        assert_eq!(run32(float_op(0x2c, 0, 0), &[a.abs()]), a.abs().sqrt().to_bits());
        assert_eq!(run32(fused(0x43, 0), &[a, b, 0.3]), a.mul_add(b, 0.3).to_bits());
    }
}

#[test]
fn double_arithmetic_matches_the_host() {
    for (a, b) in [(1.5_f64, 2.25_f64), (0.1, 0.2), (-7.0, 3.0), (1.0e300, 1.0e-300)] {
        assert_eq!(run64(float_op(0x01, 2, 0), &[a, b]), (a + b).to_bits());
        assert_eq!(run64(float_op(0x05, 2, 0), &[a, b]), (a - b).to_bits());
        assert_eq!(run64(float_op(0x09, 2, 0), &[a, b]), (a * b).to_bits());
        assert_eq!(run64(float_op(0x0d, 2, 0), &[a, b]), (a / b).to_bits());
        assert_eq!(run64(float_op(0x2d, 0, 0), &[a.abs()]), a.abs().sqrt().to_bits());
        assert_eq!(run64(fused(0x43, 1), &[a, b, 0.3]), a.mul_add(b, 0.3).to_bits());
        assert_eq!(run64(fused(0x47, 1), &[a, b, 0.3]), a.mul_add(b, -0.3).to_bits());
        assert_eq!(run64(fused(0x4b, 1), &[a, b, 0.3]), (-a).mul_add(b, 0.3).to_bits());
        assert_eq!(run64(fused(0x4f, 1), &[a, b, 0.3]), (-a).mul_add(b, -0.3).to_bits());
    }
}

#[test]
fn conversions_between_formats_match_the_host() {
    let mut narrow = machine(float_op(0x20, 1, 0));
    narrow.harts[0].cpu.write_float64(1, 0.1_f64.to_bits());
    assert_eq!(narrow.run_slice(1).instructions_retired, 1);
    assert_eq!(narrow.harts[0].cpu.read_float32(3), (0.1_f64 as f32).to_bits());
    assert_eq!(narrow.harts[0].csrs.fcsr & FFLAGS_NX, FFLAGS_NX);

    let mut widen = machine(float_op(0x21, 0, 0));
    widen.harts[0].cpu.write_float32(1, 0.1_f32.to_bits());
    assert_eq!(widen.run_slice(1).instructions_retired, 1);
    assert_eq!(widen.harts[0].cpu.read_float64(3), f64::from(0.1_f32).to_bits());
    assert_eq!(widen.csr(Csr::Fcsr), 0);
}

#[test]
fn integer_conversions_match_the_host() {
    for value in [0_i64, 1, -1, 16_777_217, i64::MIN, i64::MAX] {
        let bits = value as u64;
        assert_eq!(
            integer_to_float32(bits, 2, Rounding::NearestTiesToEven).0,
            (value as f32).to_bits()
        );
        assert_eq!(
            integer_to_float32(bits, 3, Rounding::NearestTiesToEven).0,
            (bits as f32).to_bits()
        );
        assert_eq!(
            integer_to_float64(bits, 0, Rounding::NearestTiesToEven).0,
            f64::from(value as i32).to_bits()
        );
        assert_eq!(
            integer_to_float64(bits, 1, Rounding::NearestTiesToEven).0,
            f64::from(bits as u32).to_bits()
        );
    }
    let (value, status) = float_to_integer64((-2.5_f64).to_bits(), 2, Rounding::TowardZero);
    assert_eq!((value as i64, status), (-2, STATUS_INEXACT));
    let (value, status) = float_to_integer64(2.5_f64.to_bits(), 3, Rounding::TowardPositive);
    assert_eq!((value, status), (3, STATUS_INEXACT));
    let (value, status) = float_to_integer64((-1.0_f64).to_bits(), 3, Rounding::TowardZero);
    assert_eq!((value, status), (0, STATUS_INVALID_OP));
    let (value, _) = float_to_integer64(1.0e300_f64.to_bits(), 2, Rounding::TowardZero);
    assert_eq!(value, i64::MAX as u64);
}

#[test]
fn rounding_modes_are_decoded() {
    assert_eq!(float_rounding(0, 0), Some(Rounding::NearestTiesToEven));
    assert_eq!(float_rounding(0, 1), Some(Rounding::TowardZero));
    assert_eq!(float_rounding(0, 2), Some(Rounding::TowardNegative));
    assert_eq!(float_rounding(0, 3), Some(Rounding::TowardPositive));
    assert_eq!(float_rounding(0, 4), Some(Rounding::NearestTiesToAway));
    assert_eq!(float_rounding(0, 5), None);
    assert_eq!(float_rounding(3 << 5, 7), Some(Rounding::TowardPositive));
    assert_eq!(float_rounding(5 << 5, 7), None);
}

#[test]
fn selection_comparison_and_signs() {
    assert_eq!(float_select32((-0.0_f32).to_bits(), 0, false), (-0.0_f32).to_bits());
    assert_eq!(float_select32(CANONICAL_NAN_F32, 7, true), 7);
    assert_eq!(
        float_select32(CANONICAL_NAN_F32, CANONICAL_NAN_F32, true),
        CANONICAL_NAN_F32
    );
    let one = 1.0_f64.to_bits();
    let two = 2.0_f64.to_bits();
    assert_eq!(float_compare64(one, two, 1), (true, 0));
    assert_eq!(float_compare64(one, one, 2), (true, 0));
    assert_eq!(float_compare64(two, one, 0), (false, 0));
    assert_eq!(float_compare64(CANONICAL_NAN_F64, one, 1), (false, FFLAGS_NV));
    assert_eq!(float_compare64(CANONICAL_NAN_F64, one, 2), (false, 0));
    assert_eq!(float_sign_injection64(one, (-2.0_f64).to_bits(), 0), (-1.0_f64).to_bits());
    assert_eq!(float_sign_injection64(one, two, 1), (-1.0_f64).to_bits());
    assert_eq!(
        float_sign_injection64((-1.0_f64).to_bits(), (-2.0_f64).to_bits(), 2),
        one
    );
    assert_eq!(float_class32(f32::NEG_INFINITY.to_bits()), 1);
    assert_eq!(float_class32((-1.0_f32).to_bits()), 1 << 1);
    assert_eq!(float_class32(0x8000_0001), 1 << 2);
    assert_eq!(float_class32((-0.0_f32).to_bits()), 1 << 3);
    assert_eq!(float_class32(0), 1 << 4);
    assert_eq!(float_class32(1), 1 << 5);
    assert_eq!(float_class32(1.0_f32.to_bits()), 1 << 6);
    assert_eq!(float_class32(f32::INFINITY.to_bits()), 1 << 7);
}

#[test]
fn operations_accrue_flags_or_leave_the_hart_as_it_was() {
    let mut machine = machine(0);
    let hart = &mut machine.harts[0];
    hart.csrs.fcsr = 0x40 | FFLAGS_NV;
    hart.cpu.write_float32(1, 0.1_f32.to_bits());
    hart.cpu.write_float32(2, 0.2_f32.to_bits());
    let add = float_op(0x00, 2, 7);
    assert_eq!(hart.execute_float_op(add, 3, 1, 2, 7, 0x00, 0x1000), Ok(()));
    assert_eq!(hart.csrs.fcsr, 0x40 | FFLAGS_NV | FFLAGS_NX);
    assert_eq!(hart.csrs.mstatus & MSTATUS_FS, MSTATUS_FS_DIRTY);

    let illegal = |instruction| Err(MachineTrap::IllegalInstruction { pc: 0x1000, instruction });
    let (cpu, csrs) = (format!("{:?}", hart.cpu), hart.csrs);
    let unknown = float_op(0x7f, 2, 0);
    assert_eq!(hart.execute_float_op(unknown, 3, 1, 2, 0, 0x7f, 0x1000), illegal(unknown));
    assert_eq!((format!("{:?}", hart.cpu), hart.csrs), (cpu.clone(), csrs));

    hart.csrs.mstatus = MSTATUS_FS_OFF;
    let csrs = hart.csrs;
    assert_eq!(hart.execute_float_op(add, 3, 1, 2, 7, 0x00, 0x1000), illegal(add));
    let muladd = fused(0x43, 0);
    assert_eq!(hart.execute_float_fused(muladd, 0x43, 0x1000), illegal(muladd));
    assert_eq!((format!("{:?}", hart.cpu), hart.csrs), (cpu, csrs));
}
