//! How floating-point numbers are told apart and ordered, from the bits that
//! they are made of: a sign above an exponent above a fraction.

use crate::bits;
use crate::floating;
use vstd::prelude::*;

verus! {

// Single precision.

/// The bits below the sign.
pub open spec fn size32(v: u32) -> int {
    if v < 0x8000_0000 {
        v as int
    } else {
        v - 0x8000_0000
    }
}

pub open spec fn negative32(v: u32) -> bool {
    v >= 0x8000_0000
}

/// Behind the infinities stand the values that are no numbers; those of the
/// lower half signal.
pub open spec fn number32(v: u32) -> bool {
    size32(v) <= 0x7f80_0000
}

proof fn lemma_parts32(v: u32)
    ensures
        v & 0x7fff_ffff == size32(v),
        (v & 0x8000_0000 == 0) == !negative32(v),
        floating::is_nan32(v) == !number32(v),
        number32(v) ==> floating::order32(v) == (if negative32(v) {
            -size32(v)
        } else {
            size32(v)
        }),
        floating::is_signaling32(v) == (!number32(v) && size32(v) < 0x7fc0_0000),
        v >> 31 != 0 <==> negative32(v),
        (v >> 23) & 0xff == size32(v) / 0x80_0000,
        v & 0x7f_ffff == size32(v) % 0x80_0000,
{
    bits::lemma_float_words(v, v);
}

/// Numbers are compared by their sign and then by size; the two zeros are
/// equal; what is no number is neither less than, nor equal to, anything, which
/// only an equality of quiet ones passes over in silence.
pub proof fn singles_are_compared_by_sign_and_size(a: u32, b: u32)
    ensures
        ({
            let less = floating::compare32_spec(a, b, 1);
            let equal = floating::compare32_spec(a, b, 2);
            let at_most = floating::compare32_spec(a, b, 0);
            if number32(a) && number32(b) {
                &&& less.0 == (if negative32(a) != negative32(b) {
                    negative32(a) && (size32(a) != 0 || size32(b) != 0)
                } else if negative32(a) {
                    size32(a) > size32(b)
                } else {
                    size32(a) < size32(b)
                })
                &&& equal.0 == (a == b || size32(a) == 0 && size32(b) == 0)
                &&& at_most.0 == (less.0 || equal.0)
                &&& less.1 == 0 && equal.1 == 0 && at_most.1 == 0
            } else {
                &&& !less.0 && !equal.0 && !at_most.0
                &&& less.1 == 0x10 && at_most.1 == 0x10
                &&& equal.1 == (if floating::is_signaling32(a) || floating::is_signaling32(b) {
                    0x10u8
                } else {
                    0u8
                })
            }
        }),
{
    lemma_parts32(a);
    lemma_parts32(b);
}

/// Sign injection keeps the size and takes the sign of the second operand, its
/// opposite, or the product of both.
pub proof fn singles_take_their_sign(a: u32, b: u32)
    ensures
        ({
            let same = floating::inject32_spec(a, b, 0);
            let opposite = floating::inject32_spec(a, b, 1);
            let product = floating::inject32_spec(a, b, 2);
            &&& size32(same) == size32(a) && negative32(same) == negative32(b)
            &&& size32(opposite) == size32(a) && negative32(opposite) == !negative32(b)
            &&& size32(product) == size32(a) && negative32(product) == (negative32(a)
                != negative32(b))
        }),
{
    bits::lemma_float_words(a, b);
}

/// The larger and the smaller of two are one of them; a zero with a sign is
/// below one without; what is no number gives way to one that is.
pub proof fn singles_are_selected(a: u32, b: u32)
    ensures
        ({
            let larger = floating::select32_spec(a, b, true);
            let smaller = floating::select32_spec(a, b, false);
            &&& !number32(a) && !number32(b) ==> larger == 0x7fc0_0000 && smaller == 0x7fc0_0000
            &&& !number32(a) && number32(b) ==> larger == b && smaller == b
            &&& number32(a) && !number32(b) ==> larger == a && smaller == a
            &&& number32(a) && number32(b) ==> {
                &&& larger == a && smaller == b || larger == b && smaller == a
                &&& floating::order32(smaller) <= floating::order32(larger)
                &&& negative32(larger) ==> negative32(a) && negative32(b)
                &&& negative32(a) || negative32(b) ==> negative32(smaller)
            }
        }),
{
    lemma_parts32(a);
    lemma_parts32(b);
    bits::lemma_float_words(a, b);
}

/// Each value is of exactly one class: infinities, normal numbers, those below
/// the normal ones, zeros, by sign; and two kinds that are no numbers.
pub proof fn singles_are_classified(v: u32)
    ensures
        floating::class32_spec(v) == (if !number32(v) {
            if size32(v) < 0x7fc0_0000 {
                0x100u16
            } else {
                0x200
            }
        } else if size32(v) == 0x7f80_0000 {
            if negative32(v) {
                0x1
            } else {
                0x80
            }
        } else if size32(v) >= 0x80_0000 {
            if negative32(v) {
                0x2
            } else {
                0x40
            }
        } else if size32(v) > 0 {
            if negative32(v) {
                0x4
            } else {
                0x20
            }
        } else if negative32(v) {
            0x8
        } else {
            0x10
        }),
{
    lemma_parts32(v);
}

// Double precision.

/// The bits below the sign.
pub open spec fn size64(v: u64) -> int {
    if v < 0x8000_0000_0000_0000 {
        v as int
    } else {
        v - 0x8000_0000_0000_0000
    }
}

pub open spec fn negative64(v: u64) -> bool {
    v >= 0x8000_0000_0000_0000
}

/// Behind the infinities stand the values that are no numbers; those of the
/// lower half signal.
pub open spec fn number64(v: u64) -> bool {
    size64(v) <= 0x7ff0_0000_0000_0000
}

proof fn lemma_parts64(v: u64)
    ensures
        v & 0x7fff_ffff_ffff_ffff == size64(v),
        (v & 0x8000_0000_0000_0000 == 0) == !negative64(v),
        floating::is_nan64(v) == !number64(v),
        number64(v) ==> floating::order64(v) == (if negative64(v) {
            -size64(v)
        } else {
            size64(v)
        }),
        floating::is_signaling64(v) == (!number64(v) && size64(v) < 0x7ff8_0000_0000_0000),
        v >> 63 != 0 <==> negative64(v),
        (v >> 52) & 0x7ff == size64(v) / 0x10_0000_0000_0000,
        v & 0xf_ffff_ffff_ffff == size64(v) % 0x10_0000_0000_0000,
{
    bits::lemma_float_doubles(v, v);
}

/// Numbers are compared by their sign and then by size; the two zeros are
/// equal; what is no number is neither less than, nor equal to, anything, which
/// only an equality of quiet ones passes over in silence.
pub proof fn doubles_are_compared_by_sign_and_size(a: u64, b: u64)
    ensures
        ({
            let less = floating::compare64_spec(a, b, 1);
            let equal = floating::compare64_spec(a, b, 2);
            let at_most = floating::compare64_spec(a, b, 0);
            if number64(a) && number64(b) {
                &&& less.0 == (if negative64(a) != negative64(b) {
                    negative64(a) && (size64(a) != 0 || size64(b) != 0)
                } else if negative64(a) {
                    size64(a) > size64(b)
                } else {
                    size64(a) < size64(b)
                })
                &&& equal.0 == (a == b || size64(a) == 0 && size64(b) == 0)
                &&& at_most.0 == (less.0 || equal.0)
                &&& less.1 == 0 && equal.1 == 0 && at_most.1 == 0
            } else {
                &&& !less.0 && !equal.0 && !at_most.0
                &&& less.1 == 0x10 && at_most.1 == 0x10
                &&& equal.1 == (if floating::is_signaling64(a) || floating::is_signaling64(b) {
                    0x10u8
                } else {
                    0u8
                })
            }
        }),
{
    lemma_parts64(a);
    lemma_parts64(b);
}

/// Sign injection keeps the size and takes the sign of the second operand, its
/// opposite, or the product of both.
pub proof fn doubles_take_their_sign(a: u64, b: u64)
    ensures
        ({
            let same = floating::inject64_spec(a, b, 0);
            let opposite = floating::inject64_spec(a, b, 1);
            let product = floating::inject64_spec(a, b, 2);
            &&& size64(same) == size64(a) && negative64(same) == negative64(b)
            &&& size64(opposite) == size64(a) && negative64(opposite) == !negative64(b)
            &&& size64(product) == size64(a) && negative64(product) == (negative64(a)
                != negative64(b))
        }),
{
    bits::lemma_float_doubles(a, b);
}

/// The larger and the smaller of two are one of them; a zero with a sign is
/// below one without; what is no number gives way to one that is.
pub proof fn doubles_are_selected(a: u64, b: u64)
    ensures
        ({
            let larger = floating::select64_spec(a, b, true);
            let smaller = floating::select64_spec(a, b, false);
            &&& !number64(a) && !number64(b) ==> larger == 0x7ff8_0000_0000_0000 && smaller == 0x7ff8_0000_0000_0000
            &&& !number64(a) && number64(b) ==> larger == b && smaller == b
            &&& number64(a) && !number64(b) ==> larger == a && smaller == a
            &&& number64(a) && number64(b) ==> {
                &&& larger == a && smaller == b || larger == b && smaller == a
                &&& floating::order64(smaller) <= floating::order64(larger)
                &&& negative64(larger) ==> negative64(a) && negative64(b)
                &&& negative64(a) || negative64(b) ==> negative64(smaller)
            }
        }),
{
    lemma_parts64(a);
    lemma_parts64(b);
    bits::lemma_float_doubles(a, b);
}

/// Each value is of exactly one class: infinities, normal numbers, those below
/// the normal ones, zeros, by sign; and two kinds that are no numbers.
pub proof fn doubles_are_classified(v: u64)
    ensures
        floating::class64_spec(v) == (if !number64(v) {
            if size64(v) < 0x7ff8_0000_0000_0000 {
                0x100u16
            } else {
                0x200
            }
        } else if size64(v) == 0x7ff0_0000_0000_0000 {
            if negative64(v) {
                0x1
            } else {
                0x80
            }
        } else if size64(v) >= 0x10_0000_0000_0000 {
            if negative64(v) {
                0x2
            } else {
                0x40
            }
        } else if size64(v) > 0 {
            if negative64(v) {
                0x4
            } else {
                0x20
            }
        } else if negative64(v) {
            0x8
        } else {
            0x10
        }),
{
    lemma_parts64(v);
}

} // verus!
