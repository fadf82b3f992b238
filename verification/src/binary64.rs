//! Coordinates as the bits of binary64 floating-point numbers.
//!
//! A coordinate travels as eight bytes: one sign bit, eleven bits of
//! exponent and fifty-two bits of fraction. What the router and the
//! translation need of such a number is computed here on the bits, with
//! integers alone: the grid cell in which it falls, and the number that an
//! offset of whole blocks makes of it.

use crate::packet::Binary64;
use vstd::arithmetic::div_mod::{lemma_fundamental_div_mod, lemma_fundamental_div_mod_converse};
use vstd::arithmetic::power2::*;
use vstd::prelude::*;

verus! {

/// Two to the power 52: the number of fractions.
pub const FRACTION_SPAN: u64 = 0x10_0000_0000_0000;

/// Two to the power 63: the weight of the sign bit.
pub const SIGN_WEIGHT: u64 = 0x8000_0000_0000_0000;

/// The exponent field of infinities and of values that are no numbers.
pub const SPECIAL_EXPONENT: u64 = 0x7ff;

/// The sign bit is set.
pub open spec fn is_negative(bits: Binary64) -> bool {
    bits >= SIGN_WEIGHT
}

/// The eleven bits of exponent.
pub open spec fn exponent_field(bits: Binary64) -> int {
    (bits / FRACTION_SPAN) as int % 0x800
}

/// The fifty-two bits of fraction.
pub open spec fn fraction_field(bits: Binary64) -> int {
    (bits % FRACTION_SPAN) as int
}

/// The bits stand for a number, not for an infinity or for no number.
pub open spec fn is_finite(bits: Binary64) -> bool {
    exponent_field(bits) != SPECIAL_EXPONENT
}

/// The integer `m` of a finite number, whose magnitude is `m` times two to
/// the power `exponent`.
pub open spec fn significand(bits: Binary64) -> int {
    if exponent_field(bits) == 0 {
        fraction_field(bits)
    } else {
        fraction_field(bits) + FRACTION_SPAN
    }
}

/// The power of two by which the significand of a finite number is scaled.
pub open spec fn exponent(bits: Binary64) -> int {
    if exponent_field(bits) == 0 {
        -1074
    } else {
        exponent_field(bits) - 1075
    }
}

/// The significand with the number's sign.
pub open spec fn signed_significand(bits: Binary64) -> int {
    if is_negative(bits) {
        -significand(bits)
    } else {
        significand(bits)
    }
}

/// The bits with this sign, exponent field and fraction.
pub open spec fn compose(negative: bool, field: int, fraction: int) -> Binary64 {
    ((if negative {
        SIGN_WEIGHT as int
    } else {
        0
    }) + field * FRACTION_SPAN + fraction) as u64
}

/// Two to the power `n`, with the sign of `n` deciding between a factor
/// and a divisor: `x` times two to the power `n`, rounded down.
pub open spec fn scale_down(x: int, n: int) -> int {
    if n >= 0 {
        x * pow2(n as nat)
    } else {
        x / (pow2((-n) as nat) as int)
    }
}

/// The value `v`, held to the range of `i32`.
pub open spec fn saturate(v: int) -> i32 {
    if v > i32::MAX {
        i32::MAX
    } else if v < i32::MIN {
        i32::MIN
    } else {
        v as i32
    }
}

/// The number divided by two to the power `shift`, rounded down to a whole
/// number and held to the range of `i32`. What is no number gives 0, an
/// infinity the end of the range on its side.
pub open spec fn floor_shifted(bits: Binary64, shift: nat) -> i32 {
    if is_finite(bits) {
        saturate(scale_down(signed_significand(bits), exponent(bits) - shift))
    } else if fraction_field(bits) != 0 {
        0
    } else if is_negative(bits) {
        i32::MIN
    } else {
        i32::MAX
    }
}

/// The number of bits that the natural number `a` takes.
pub open spec fn bit_length(a: nat) -> nat
    decreases a,
{
    if a == 0 {
        0
    } else {
        1 + bit_length(a / 2)
    }
}

/// A number of `bit_length` bits lies between the powers of two around it.
pub proof fn lemma_bit_length_bounds(a: nat)
    requires
        a > 0,
    ensures
        pow2((bit_length(a) - 1) as nat) <= a < pow2(bit_length(a)),
        bit_length(a) >= 1,
    decreases a,
{
    lemma2_to64();
    if a >= 2 {
        lemma_bit_length_bounds(a / 2);
        lemma_pow2_unfold(bit_length(a));
        lemma_pow2_unfold((bit_length(a) - 1) as nat);
    } else {
        assert(bit_length(0) == 0);
        assert(bit_length(1) == 1 + bit_length(0));
    }
}

/// A number below two to the power `n` takes at most `n` bits.
pub proof fn lemma_bit_length_at_most(a: nat, n: nat)
    requires
        a < pow2(n),
    ensures
        bit_length(a) <= n,
{
    if a > 0 {
        lemma_bit_length_bounds(a);
        if bit_length(a) > n {
            if bit_length(a) - 1 > n {
                lemma_pow2_strictly_increases(n, (bit_length(a) - 1) as nat);
            }
        }
    }
}

/// Two to the power `n`.
pub fn two_to(n: u32) -> (r: u128)
    requires
        n <= 126,
    ensures
        r == pow2(n as nat),
        r >= 1,
{
    let mut r: u128 = 1;
    let mut i: u32 = 0;
    proof {
        lemma2_to64();
    }
    while i < n
        invariant
            i <= n <= 126,
            r == pow2(i as nat),
            r >= 1,
        decreases n - i,
    {
        proof {
            lemma_pow2_unfold((i + 1) as nat);
            lemma_pow2_strictly_increases((i + 1) as nat, 127);
            lemma_pow2_127();
        }
        r = r * 2;
        i = i + 1;
    }
    r
}

pub(crate) proof fn lemma_pow2_127()
    ensures
        pow2(127) == 0x8000_0000_0000_0000_0000_0000_0000_0000,
{
    lemma2_to64();
    lemma_pow2_adds(64, 63);
    lemma_pow2_adds(32, 31);
    assert(pow2(63) == 0x8000_0000_0000_0000) by (nonlinear_arith)
        requires
            pow2(63) == pow2(32) * pow2(31),
            pow2(32) == 0x1_0000_0000,
            pow2(31) == 0x8000_0000,
    ;
    assert(pow2(127) == 0x8000_0000_0000_0000_0000_0000_0000_0000) by (nonlinear_arith)
        requires
            pow2(127) == pow2(64) * pow2(63),
            pow2(64) == 0x1_0000_0000_0000_0000,
            pow2(63) == 0x8000_0000_0000_0000,
    ;
}

/// The number of bits that `a` takes.
pub fn bit_length_of(a: u128) -> (len: u32)
    ensures
        len == bit_length(a as nat),
        len <= 128,
{
    let mut rest: u128 = a;
    let mut len: u32 = 0;
    proof {
        lemma_pow2_127();
        lemma_pow2_unfold(128);
        lemma_bit_length_at_most(a as nat, 128);
    }
    while rest > 0
        invariant
            len + bit_length(rest as nat) == bit_length(a as nat),
            bit_length(a as nat) <= 128,
        decreases rest,
    {
        rest = rest / 2;
        len = len + 1;
    }
    len
}

pub(crate) proof fn lemma_pow2_53()
    ensures
        pow2(52) == 0x10_0000_0000_0000,
        pow2(53) == 0x20_0000_0000_0000,
{
    lemma2_to64();
    lemma_pow2_adds(32, 20);
    lemma_pow2_unfold(53);
    assert(pow2(52) == 0x10_0000_0000_0000) by (nonlinear_arith)
        requires
            pow2(52) == pow2(32) * pow2(20),
            pow2(32) == 0x1_0000_0000,
            pow2(20) == 0x10_0000,
    ;
}

/// The number divided by two to the power `shift`, rounded down to a whole
/// number and held to the range of `i32`.
pub fn floor_shifted_of(bits: Binary64, shift: u32) -> (cell: i32)
    requires
        shift <= 64,
    ensures
        cell == floor_shifted(bits, shift as nat),
{
    let negative: bool = bits >= SIGN_WEIGHT;
    let field: u64 = bits / FRACTION_SPAN % 0x800;
    let fraction: u64 = bits % FRACTION_SPAN;
    if field == SPECIAL_EXPONENT {
        return if fraction != 0 {
            0
        } else if negative {
            i32::MIN
        } else {
            i32::MAX
        };
    }
    let m: u64 = if field == 0 {
        fraction
    } else {
        fraction + FRACTION_SPAN
    };
    let q: i64 = if field == 0 {
        -1074
    } else {
        field as i64 - 1075
    };
    let n: i64 = q - shift as i64;
    let ghost signed: int = signed_significand(bits);
    if m == 0 {
        proof {
            lemma_pow2_pos((-n) as nat);
            if n >= 0 {
                assert(0 * pow2(n as nat) == 0);
            }
        }
        return 0;
    }
    if n >= 0 {
        proof {
            lemma_pow2_pos(n as nat);
            let p = pow2(n as nat) as int;
            assert(m * p >= m) by (nonlinear_arith)
                requires
                    p >= 1,
                    m >= 0,
            ;
            assert((-(m as int)) * p == -(m * p)) by (nonlinear_arith);
        }
        return if negative {
            i32::MIN
        } else {
            i32::MAX
        };
    }
    let down: u64 = (-n) as u64;
    if down >= 64 {
        proof {
            lemma_pow2_53();
            lemma_pow2_strictly_increases(53, down as nat);
            let d = pow2(down as nat) as int;
            if negative {
                lemma_fundamental_div_mod_converse(signed, d, -1, d - m);
            } else {
                lemma_fundamental_div_mod_converse(signed, d, 0, m as int);
            }
        }
        return if negative {
            -1
        } else {
            0
        };
    }
    let d: u128 = two_to(down as u32);
    let quot: u128 = m as u128 / d;
    let rem: u128 = m as u128 % d;
    proof {
        lemma_fundamental_div_mod(m as int, d as int);
    }
    if negative {
        let below: u128 = if rem == 0 {
            quot
        } else {
            quot + 1
        };
        proof {
            let r: int = if rem == 0 {
                0
            } else {
                d - rem
            };
            assert(signed == (-(below as int)) * d + r) by (nonlinear_arith)
                requires
                    signed == -(m as int),
                    m == d * quot + rem,
                    below == (if rem == 0 {
                        quot as int
                    } else {
                        quot + 1
                    }),
                    r == (if rem == 0 {
                        0
                    } else {
                        d - rem
                    }),
            ;
            lemma_fundamental_div_mod_converse(signed, d as int, -(below as int), r);
        }
        if below > 0x8000_0000 {
            i32::MIN
        } else {
            (-(below as i64)) as i32
        }
    } else {
        if quot > 0x7fff_ffff {
            i32::MAX
        } else {
            quot as i32
        }
    }
}

/// The bits of the number with this sign whose magnitude is `a` times
/// two to the power `scale`, rounded to fifty-three significant bits: to
/// the nearer neighbour, and of two equally near ones to the one whose
/// significand is even. It is meant for magnitudes in the normal range.
pub open spec fn rounded(negative: bool, a: nat, scale: int) -> Binary64 {
    if a == 0 {
        0
    } else if bit_length(a) <= 53 {
        let extra = (53 - bit_length(a)) as nat;
        compose(negative, scale - extra + 1075, a * pow2(extra) - FRACTION_SPAN)
    } else {
        let dropped = (bit_length(a) - 53) as nat;
        let low = a / pow2(dropped);
        let rest = a % pow2(dropped);
        let kept = if 2 * rest > pow2(dropped) || (2 * rest == pow2(dropped) && low % 2 == 1) {
            low + 1
        } else {
            low
        };
        if kept == 2 * FRACTION_SPAN {
            compose(negative, scale + dropped + 1 + 1075, 0)
        } else {
            compose(negative, scale + dropped + 1075, kept - FRACTION_SPAN)
        }
    }
}

pub(crate) proof fn lemma_pow2_110()
    ensures
        pow2(110) == 0x4000_0000_0000_0000_0000_0000_0000,
{
    lemma2_to64();
    lemma_pow2_adds(64, 46);
    lemma_pow2_adds(32, 14);
    assert(pow2(46) == 0x4000_0000_0000) by (nonlinear_arith)
        requires
            pow2(46) == pow2(32) * pow2(14),
            pow2(32) == 0x1_0000_0000,
            pow2(14) == 0x4000,
    ;
    assert(pow2(110) == 0x4000_0000_0000_0000_0000_0000_0000) by (nonlinear_arith)
        requires
            pow2(110) == pow2(64) * pow2(46),
            pow2(64) == 0x1_0000_0000_0000_0000,
            pow2(46) == 0x4000_0000_0000,
    ;
}

fn compose_of(negative: bool, field: u64, fraction: u64) -> (bits: Binary64)
    requires
        field < 0x800,
        fraction < FRACTION_SPAN,
    ensures
        bits == compose(negative, field as int, fraction as int),
{
    let sign: u64 = if negative {
        SIGN_WEIGHT
    } else {
        0
    };
    sign + field * FRACTION_SPAN + fraction
}

/// The bits of the number with this sign whose magnitude is `a` times two
/// to the power `scale`, rounded to fifty-three significant bits.
pub fn round_to_binary64(negative: bool, a: u128, scale: i32) -> (bits: Binary64)
    requires
        a < 0x4000_0000_0000_0000_0000_0000_0000,
        -1000 <= scale <= 800,
    ensures
        bits == rounded(negative, a as nat, scale as int),
{
    if a == 0 {
        return 0;
    }
    let len: u32 = bit_length_of(a);
    proof {
        lemma_pow2_110();
        lemma_pow2_53();
        lemma_bit_length_at_most(a as nat, 110);
        lemma_bit_length_bounds(a as nat);
    }
    if len <= 53 {
        let extra: u32 = 53 - len;
        let up: u128 = two_to(extra);
        proof {
            lemma_pow2_adds((len - 1) as nat, extra as nat);
            lemma_pow2_adds(len as nat, extra as nat);
            let lo = pow2((len - 1) as nat) as int;
            let hi = pow2(len as nat) as int;
            assert(lo * up <= a * up < hi * up) by (nonlinear_arith)
                requires
                    lo <= a < hi,
                    up >= 1,
            ;
        }
        let mant: u64 = (a * up) as u64;
        let field: u64 = (scale as i64 - extra as i64 + 1075) as u64;
        compose_of(negative, field, mant - FRACTION_SPAN)
    } else {
        let dropped: u32 = len - 53;
        let d: u128 = two_to(dropped);
        let low: u128 = a / d;
        let rest: u128 = a % d;
        proof {
            lemma_fundamental_div_mod(a as int, d as int);
            lemma_pow2_adds(52, dropped as nat);
            lemma_pow2_adds(53, dropped as nat);
            assert(0x10_0000_0000_0000 <= low < 0x20_0000_0000_0000) by (nonlinear_arith)
                requires
                    0x10_0000_0000_0000 * d <= a < 0x20_0000_0000_0000 * d,
                    a == d * low + rest,
                    0 <= rest < d,
                    d >= 1,
            ;
        }
        let up: bool = 2 * rest > d || (2 * rest == d && low % 2 == 1);
        let kept: u64 = if up {
            (low + 1) as u64
        } else {
            low as u64
        };
        if kept == 2 * FRACTION_SPAN {
            compose_of(negative, (scale as i64 + dropped as i64 + 1 + 1075) as u64, 0)
        } else {
            compose_of(
                negative,
                (scale as i64 + dropped as i64 + 1075) as u64,
                kept - FRACTION_SPAN,
            )
        }
    }
}

/// No offset reaches this many blocks.
pub const OFFSET_LIMIT: i64 = 0x100_0000_0000;

/// The magnitude of `k`.
pub open spec fn magnitude(k: int) -> nat {
    if k < 0 {
        (-k) as nat
    } else {
        k as nat
    }
}

/// The bits of the number that an offset of `k` whole blocks makes of the
/// number `bits`: their exact sum, rounded as `rounded` says.
///
/// What is not finite stays as it is, and so does every number under the
/// offset 0. A number so large that the offset is below a quarter of its
/// last binary place stays as it is too, and a number below a quarter of
/// the offset's last binary place gives the offset itself: in both cases
/// the rounded sum is that neighbour. That the result is in every case the
/// nearest binary64 number is proved in the module `exact`.
pub open spec fn offset_by(bits: Binary64, k: int) -> Binary64 {
    let m = significand(bits);
    let q = exponent(bits);
    if k == 0 || !is_finite(bits) {
        bits
    } else if q >= 42 {
        bits
    } else if m == 0 || q + 108 <= bit_length(magnitude(k)) {
        rounded(k < 0, magnitude(k), 0)
    } else if q >= 0 {
        let sum = signed_significand(bits) * pow2(q as nat) + k;
        rounded(sum < 0, magnitude(sum), 0)
    } else {
        let sum = signed_significand(bits) + k * pow2((-q) as nat);
        rounded(sum < 0, magnitude(sum), q)
    }
}

pub(crate) proof fn lemma_pow2_40()
    ensures
        pow2(40) == 0x100_0000_0000,
        pow2(41) == 0x200_0000_0000,
{
    lemma2_to64();
    lemma_pow2_adds(32, 8);
    lemma_pow2_unfold(41);
    assert(pow2(40) == 0x100_0000_0000) by (nonlinear_arith)
        requires
            pow2(40) == pow2(32) * pow2(8),
            pow2(32) == 0x1_0000_0000,
            pow2(8) == 0x100,
    ;
}

/// The bits of the number that an offset of `k` whole blocks makes of the
/// number `bits`.
pub fn offset_bits(bits: Binary64, k: i64) -> (moved: Binary64)
    requires
        -OFFSET_LIMIT < k < OFFSET_LIMIT,
    ensures
        moved == offset_by(bits, k as int),
{
    let negative: bool = bits >= SIGN_WEIGHT;
    let field: u64 = bits / FRACTION_SPAN % 0x800;
    let fraction: u64 = bits % FRACTION_SPAN;
    if k == 0 || field == SPECIAL_EXPONENT {
        return bits;
    }
    let m: u64 = if field == 0 {
        fraction
    } else {
        fraction + FRACTION_SPAN
    };
    let q: i32 = if field == 0 {
        -1074
    } else {
        field as i32 - 1075
    };
    if q >= 42 {
        return bits;
    }
    let size: u128 = if k < 0 {
        (-k) as u128
    } else {
        k as u128
    };
    let size_length: u32 = bit_length_of(size);
    proof {
        lemma_pow2_40();
        lemma_pow2_53();
        lemma_pow2_110();
        lemma_bit_length_at_most(size as nat, 40);
        lemma_bit_length_bounds(size as nat);
    }
    if m == 0 || q + 108 <= size_length as i32 {
        return round_to_binary64(k < 0, size, 0);
    }
    let ghost signed: int = signed_significand(bits);
    if q >= 0 {
        let factor: u128 = two_to(q as u32);
        proof {
            lemma_pow2_strictly_increases(q as nat, 42);
            lemma_pow2_unfold(42);
            assert(m * factor < 0x20_0000_0000_0000 * 0x400_0000_0000) by (nonlinear_arith)
                requires
                    0 <= m < 0x20_0000_0000_0000,
                    1 <= factor < 0x400_0000_0000,
            ;
            assert((-(m as int)) * factor == -(m * factor)) by (nonlinear_arith);
        }
        let scaled: i128 = (m as u128 * factor) as i128;
        let sum: i128 = if negative {
            -scaled + k as i128
        } else {
            scaled + k as i128
        };
        let a: u128 = if sum < 0 {
            (-sum) as u128
        } else {
            sum as u128
        };
        round_to_binary64(sum < 0, a, 0)
    } else {
        let up: u32 = (-q) as u32;
        let factor: u128 = two_to(up);
        proof {
            lemma_pow2_adds(size_length as nat, up as nat);
            lemma_pow2_strictly_increases((size_length + up) as nat, 108);
            lemma_pow2_strictly_increases(108, 110);
            let bound = pow2(size_length as nat) as int;
            assert(size * factor < bound * factor) by (nonlinear_arith)
                requires
                    0 <= size < bound,
                    factor >= 1,
            ;
            assert((-(size as int)) * factor == -(size * factor)) by (nonlinear_arith);
            lemma_pow2_unfold(110);
            lemma_pow2_unfold(109);
        }
        let scaled: i128 = (size * factor) as i128;
        let part: i128 = if k < 0 {
            -scaled
        } else {
            scaled
        };
        let sum: i128 = if negative {
            part - m as i128
        } else {
            part + m as i128
        };
        let a: u128 = if sum < 0 {
            (-sum) as u128
        } else {
            sum as u128
        };
        round_to_binary64(sum < 0, a, q)
    }
}

} // verus!
