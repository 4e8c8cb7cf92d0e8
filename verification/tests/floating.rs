use aos_realm::floating::{float_class32, float_class64, float_status_flags, float_to_integer32};
use aos_realm::isa::{CANONICAL_NAN_F32, FFLAGS_DZ, FFLAGS_NV, FFLAGS_NX, FFLAGS_OF, FFLAGS_UF};
use aos_realm::softfloat::{
    Rounding, STATUS_DIV_BY_ZERO, STATUS_INEXACT, STATUS_INVALID_OP, STATUS_OVERFLOW,
    STATUS_UNDERFLOW,
};

#[test]
fn status_mapping_and_nan_classification_match_riscv_bits() {
    assert_eq!(float_status_flags(STATUS_INVALID_OP), FFLAGS_NV);
    assert_eq!(float_status_flags(STATUS_DIV_BY_ZERO), FFLAGS_DZ);
    assert_eq!(float_status_flags(STATUS_OVERFLOW), FFLAGS_OF);
    assert_eq!(float_status_flags(STATUS_UNDERFLOW), FFLAGS_UF);
    assert_eq!(float_status_flags(STATUS_INEXACT), FFLAGS_NX);
    assert_eq!(float_class32(0x7f80_0001), 1 << 8);
    assert_eq!(float_class32(CANONICAL_NAN_F32), 1 << 9);
    assert_eq!(float_class64(0xfff0_0000_0000_0000), 1 << 0);
    assert_eq!(float_class64(1), 1 << 5);
}

#[test]
fn integer_conversion_uses_riscv_nan_and_word_results() {
    let nan = CANONICAL_NAN_F32;
    let (signed, status) = float_to_integer32(nan, 0, Rounding::NearestTiesToEven);
    assert_eq!(signed, 0x0000_0000_7fff_ffff);
    assert_eq!(status, STATUS_INVALID_OP);
    let (unsigned, status) = float_to_integer32(nan, 1, Rounding::NearestTiesToEven);
    assert_eq!(unsigned, u64::MAX);
    assert_eq!(status, STATUS_INVALID_OP);
}
