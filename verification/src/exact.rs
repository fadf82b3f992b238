//! What `offset_by` gives, said without its steps: the binary64 number
//! nearest to the sum of a coordinate and an offset, with ties going to
//! the even significand. Where the sum is itself a binary64 number, that
//! number comes out, and the way there and back restores the coordinate.

use crate::binary64::{
    FRACTION_SPAN, OFFSET_LIMIT, SIGN_WEIGHT, bit_length, compose, exponent, exponent_field,
    fraction_field, is_finite, is_negative, lemma_bit_length_at_most, lemma_bit_length_bounds,
    lemma_pow2_110, lemma_pow2_40, lemma_pow2_53, magnitude, offset_by, rounded,
    signed_significand, significand,
};
use crate::packet::Binary64;
use vstd::arithmetic::power2::*;
use vstd::prelude::*;

verus! {

/// The number of finite bits, counted in steps of two to the power -1074,
/// the smallest step between two binary64 numbers: a whole number.
pub open spec fn scaled_value(bits: Binary64) -> int {
    signed_significand(bits) * pow2((exponent(bits) + 1074) as nat)
}

/// An offset of whole blocks, counted in the same steps.
pub open spec fn scaled_offset(k: int) -> int {
    k * pow2(1074)
}

/// The bits `moved` stand for exactly the number of `bits` plus `k`.
pub open spec fn is_exact_sum(bits: Binary64, k: int, moved: Binary64) -> bool {
    &&& is_finite(bits)
    &&& is_finite(moved)
    &&& scaled_value(moved) == scaled_value(bits) + scaled_offset(k)
}

proof fn lemma_pow2_ordered(a: nat, b: nat)
    ensures
        a <= b ==> pow2(a) <= pow2(b),
        pow2(a) < pow2(b) ==> a < b,
        pow2(a) >= 1,
{
    lemma_pow2_pos(a);
    if a < b {
        lemma_pow2_strictly_increases(a, b);
    }
    if b < a {
        lemma_pow2_strictly_increases(b, a);
    }
}

/// Bits are their sign, their exponent field and their fraction.
proof fn lemma_parts(bits: Binary64)
    ensures
        0 <= exponent_field(bits) < 0x800,
        0 <= fraction_field(bits) < FRACTION_SPAN,
        bits == compose(is_negative(bits), exponent_field(bits), fraction_field(bits)),
        0 <= significand(bits) < 2 * FRACTION_SPAN,
        exponent_field(bits) >= 1 ==> significand(bits) >= FRACTION_SPAN,
        exponent_field(bits) == 0 ==> significand(bits) < FRACTION_SPAN,
        is_finite(bits) ==> -1074 <= exponent(bits) <= 971,
{
}

/// The bits that are composed of a sign, an exponent field and a fraction
/// have these three.
proof fn lemma_compose_parts(negative: bool, field: int, fraction: int)
    requires
        0 <= field < 0x800,
        0 <= fraction < FRACTION_SPAN,
    ensures
        is_negative(compose(negative, field, fraction)) == negative,
        exponent_field(compose(negative, field, fraction)) == field,
        fraction_field(compose(negative, field, fraction)) == fraction,
{
}

/// Two finite numbers of the same value have the same bits, unless they
/// are the two zeros.
pub proof fn lemma_same_value(x: Binary64, y: Binary64)
    requires
        is_finite(x),
        is_finite(y),
        scaled_value(x) == scaled_value(y),
        scaled_value(x) != 0 || is_negative(x) == is_negative(y),
    ensures
        x == y,
{
    lemma_parts(x);
    lemma_parts(y);
    let mx = significand(x);
    let my = significand(y);
    let tx = (exponent(x) + 1074) as nat;
    let ty = (exponent(y) + 1074) as nat;
    let px = pow2(tx) as int;
    let py = pow2(ty) as int;
    lemma_pow2_ordered(tx, ty);
    lemma_pow2_ordered(ty, tx);
    let sx = signed_significand(x);
    let sy = signed_significand(y);
    assert(sx * px == sy * py);
    assert(is_negative(x) == is_negative(y) && mx * px == my * py) by (nonlinear_arith)
        requires
            sx * px == sy * py,
            sx * px != 0 || is_negative(x) == is_negative(y),
            sx == (if is_negative(x) {
                -mx
            } else {
                mx
            }),
            sy == (if is_negative(y) {
                -my
            } else {
                my
            }),
            mx >= 0,
            my >= 0,
            px >= 1,
            py >= 1,
    ;
    let fx = exponent_field(x);
    let fy = exponent_field(y);
    if tx < ty {
        lemma_pow2_adds(tx, (ty - tx) as nat);
        lemma_pow2_ordered(1, (ty - tx) as nat);
        lemma2_to64();
        let gap = pow2((ty - tx) as nat) as int;
        assert(false) by (nonlinear_arith)
            requires
                mx * px == my * py,
                py == px * gap,
                gap >= 2,
                px >= 1,
                my >= FRACTION_SPAN,
                0 <= mx < 2 * FRACTION_SPAN,
        ;
    }
    if ty < tx {
        lemma_pow2_adds(ty, (tx - ty) as nat);
        lemma_pow2_ordered(1, (tx - ty) as nat);
        lemma2_to64();
        let gap = pow2((tx - ty) as nat) as int;
        assert(false) by (nonlinear_arith)
            requires
                mx * px == my * py,
                px == py * gap,
                gap >= 2,
                py >= 1,
                mx >= FRACTION_SPAN,
                0 <= my < 2 * FRACTION_SPAN,
        ;
    }
    assert(mx == my) by (nonlinear_arith)
        requires
            mx * px == my * py,
            px == py,
            px >= 1,
    ;
    assert(fx == fy);
}

/// A finite number of value zero that is not the negative zero is the
/// positive zero.
proof fn lemma_zero(r: Binary64)
    requires
        is_finite(r),
        scaled_value(r) == 0,
        r != SIGN_WEIGHT,
    ensures
        r == 0,
{
    lemma_parts(r);
    let t = (exponent(r) + 1074) as nat;
    lemma_pow2_pos(t);
    let p = pow2(t) as int;
    let s = signed_significand(r);
    assert(s == 0) by (nonlinear_arith)
        requires
            s * p == 0,
            p >= 1,
    ;
}

/// Where the magnitude `a` times two to the power `scale` needs no more
/// than fifty-three significant bits and lies in the normal range, its
/// rounding is the number itself.
pub proof fn lemma_rounded_exact(negative: bool, a: nat, scale: int)
    requires
        a > 0,
        scale >= -1074,
        -1074 <= scale + bit_length(a) - 53 <= 971,
        bit_length(a) > 53 ==> a % pow2((bit_length(a) - 53) as nat) == 0,
    ensures
        is_finite(rounded(negative, a, scale)),
        is_negative(rounded(negative, a, scale)) == negative,
        exponent(rounded(negative, a, scale)) == scale + bit_length(a) - 53,
        exponent_field(rounded(negative, a, scale)) >= 1,
        scaled_value(rounded(negative, a, scale)) == (if negative {
            -(a as int)
        } else {
            a as int
        }) * pow2((scale + 1074) as nat),
{
    let len = bit_length(a);
    let base = pow2((scale + 1074) as nat) as int;
    lemma_bit_length_bounds(a);
    lemma_pow2_53();
    lemma_pow2_pos((scale + 1074) as nat);
    if len <= 53 {
        let extra = (53 - len) as nat;
        let up = pow2(extra) as int;
        lemma_pow2_pos(extra);
        lemma_pow2_adds((len - 1) as nat, extra);
        lemma_pow2_adds(len, extra);
        let lo = pow2((len - 1) as nat) as int;
        let hi = pow2(len) as int;
        assert(lo * up <= a * up < hi * up) by (nonlinear_arith)
            requires
                lo <= a < hi,
                up >= 1,
        ;
        let field = scale - extra + 1075;
        let fraction = a * up - FRACTION_SPAN;
        lemma_compose_parts(negative, field, fraction);
        let bits = compose(negative, field, fraction);
        assert(bits == rounded(negative, a, scale));
        assert(significand(bits) == a * up);
        assert(exponent(bits) == scale - extra);
        let low = pow2((scale - extra + 1074) as nat) as int;
        lemma_pow2_adds(extra, (scale - extra + 1074) as nat);
        assert((a * up) * low == a * base && (-(a * up)) * low == (-(a as int)) * base)
            by (nonlinear_arith)
            requires
                base == up * low,
        ;
    } else {
        let dropped = (len - 53) as nat;
        let d = pow2(dropped) as int;
        lemma_pow2_pos(dropped);
        lemma_pow2_adds(52, dropped);
        lemma_pow2_adds(53, dropped);
        lemma_pow2_ordered(1, dropped);
        lemma2_to64();
        let low = a as int / d;
        let rest = a as int % d;
        vstd::arithmetic::div_mod::lemma_fundamental_div_mod(a as int, d);
        assert(FRACTION_SPAN <= low < 2 * FRACTION_SPAN) by (nonlinear_arith)
            requires
                FRACTION_SPAN * d <= a < 2 * FRACTION_SPAN * d,
                a == d * low + rest,
                rest == 0,
                d >= 1,
        ;
        let field = scale + dropped + 1075;
        let fraction = low - FRACTION_SPAN;
        lemma_compose_parts(negative, field, fraction);
        let bits = compose(negative, field, fraction);
        assert(bits == rounded(negative, a, scale));
        assert(significand(bits) == low);
        assert(exponent(bits) == scale + dropped);
        let high = pow2((scale + dropped + 1074) as nat) as int;
        lemma_pow2_adds(dropped, (scale + 1074) as nat);
        assert(low * high == a * base && (-low) * high == (-(a as int)) * base)
            by (nonlinear_arith)
            requires
                high == d * base,
                a == d * low,
        ;
    }
}

/// How far the number of the finite bits `c` is from the value `v`, in
/// steps of two to the power -1074.
pub open spec fn distance(c: Binary64, v: int) -> int {
    let d = scaled_value(c) - v;
    if d < 0 {
        -d
    } else {
        d
    }
}

/// The bits `r` stand for the binary64 number that is nearest to the
/// value `v`: no finite number is nearer, and where another one is as
/// near, the significand of `r` is even.
pub open spec fn is_nearest(r: Binary64, v: int) -> bool {
    &&& is_finite(r)
    &&& forall|c: Binary64| is_finite(c) ==> distance(r, v) <= #[trigger] distance(c, v)
    &&& forall|c: Binary64|
        is_finite(c) && scaled_value(c) != scaled_value(r) && #[trigger] distance(c, v)
            == distance(r, v) ==> significand(r) % 2 == 0
}

/// No finite number lies strictly between two neighbours: between `low`
/// and `low + 1` times two to the power `e`, where `low` has fifty-three
/// bits.
proof fn lemma_bracket(c: Binary64, low: int, e: nat)
    requires
        is_finite(c),
        FRACTION_SPAN <= low < 2 * FRACTION_SPAN,
    ensures
        scaled_value(c) <= low * pow2(e) || scaled_value(c) >= (low + 1) * pow2(e),
        -scaled_value(c) <= low * pow2(e) || -scaled_value(c) >= (low + 1) * pow2(e),
{
    lemma_parts(c);
    let mc = significand(c);
    let sc = signed_significand(c);
    let tc = (exponent(c) + 1074) as nat;
    let pc = pow2(tc) as int;
    let pe = pow2(e) as int;
    lemma_pow2_pos(tc);
    lemma_pow2_pos(e);
    let size = mc * pc;
    assert(size >= 0 && (scaled_value(c) == size || scaled_value(c) == -size) && low * pe >= 0)
        by (nonlinear_arith)
        requires
            size == mc * pc,
            scaled_value(c) == sc * pc,
            sc == mc || sc == -mc,
            mc >= 0,
            pc >= 1,
            low >= 0,
            pe >= 1,
    ;
    if low * pe < size && size < (low + 1) * pe {
        if tc >= e {
            lemma_pow2_adds(e, (tc - e) as nat);
            let j = mc * pow2((tc - e) as nat);
            assert(false) by (nonlinear_arith)
                requires
                    low * pe < size < (low + 1) * pe,
                    size == mc * pc,
                    pc == pe * pow2((tc - e) as nat),
                    j == mc * pow2((tc - e) as nat),
                    pe >= 1,
            ;
        } else {
            lemma_pow2_adds(tc, (e - tc) as nat);
            lemma_pow2_ordered(1, (e - tc) as nat);
            lemma2_to64();
            let gap = pow2((e - tc) as nat) as int;
            assert(false) by (nonlinear_arith)
                requires
                    low * pe < mc * pc,
                    pe == pc * gap,
                    gap >= 2,
                    pc >= 1,
                    low >= FRACTION_SPAN,
                    0 <= mc < 2 * FRACTION_SPAN,
            ;
        }
    }
}

/// The nearest of two neighbours: where a value lies between the
/// neighbours `down` and `down + step`, at `first` above the one and
/// `step - first` below the other, whatever lies outside the two is no
/// nearer than the nearer of them.
proof fn lemma_between(y: int, target: int, down: int, step: int, first: int, chosen: int)
    requires
        target == down + first,
        0 <= first <= step,
        y <= down || y >= down + step,
        chosen == down || chosen == down + step,
        chosen == down ==> 2 * first <= step,
        chosen == down + step ==> 2 * first >= step,
    ensures
        (if chosen >= target {
            chosen - target
        } else {
            target - chosen
        }) <= (if y >= target {
            y - target
        } else {
            target - y
        }),
        y != chosen && (if chosen >= target {
            chosen - target
        } else {
            target - chosen
        }) == (if y >= target {
            y - target
        } else {
            target - y
        }) ==> 2 * first == step,
{
}

/// The rounding of the magnitude `a` times two to the power `scale`, in
/// the normal range, is the binary64 number nearest to that product, and
/// of two equally near ones the one whose significand is even.
pub proof fn lemma_rounded_nearest(negative: bool, a: nat, scale: int)
    requires
        a > 0,
        scale >= -1074,
        -1074 <= scale + bit_length(a) - 53 <= 970,
    ensures
        is_nearest(
            rounded(negative, a, scale),
            (if negative {
                -(a as int)
            } else {
                a as int
            }) * pow2((scale + 1074) as nat),
        ),
        is_negative(rounded(negative, a, scale)) == negative,
        exponent_field(rounded(negative, a, scale)) >= 1,
{
    let len = bit_length(a);
    let base = pow2((scale + 1074) as nat) as int;
    let signed: int = if negative {
        -(a as int)
    } else {
        a as int
    };
    let v = signed * base;
    let r = rounded(negative, a, scale);
    lemma_pow2_pos((scale + 1074) as nat);
    if len <= 53 || a % pow2((len - 53) as nat) == 0 {
        lemma_rounded_exact(negative, a, scale);
        assert(distance(r, v) == 0);
    } else {
        let dropped = (len - 53) as nat;
        let d = pow2(dropped) as int;
        lemma_bit_length_bounds(a);
        lemma_pow2_53();
        lemma_pow2_pos(dropped);
        lemma_pow2_adds(52, dropped);
        lemma_pow2_adds(53, dropped);
        let low = a as int / d;
        let rest = a as int % d;
        vstd::arithmetic::div_mod::lemma_fundamental_div_mod(a as int, d);
        assert(FRACTION_SPAN <= low < 2 * FRACTION_SPAN) by (nonlinear_arith)
            requires
                FRACTION_SPAN * d <= a < 2 * FRACTION_SPAN * d,
                a == d * low + rest,
                0 <= rest < d,
                d >= 1,
        ;
        let up = 2 * rest > d || (2 * rest == d && low % 2 == 1);
        let kept = if up {
            low + 1
        } else {
            low
        };
        let e = (scale + 1074 + dropped) as nat;
        let step = pow2(e) as int;
        lemma_pow2_adds(dropped, (scale + 1074) as nat);
        lemma_pow2_pos(e);
        lemma_pow2_unfold(e + 1);
        if kept == 2 * FRACTION_SPAN {
            lemma_compose_parts(negative, scale + dropped + 1 + 1075, 0);
            assert(significand(r) == FRACTION_SPAN);
            assert(exponent(r) == scale + dropped + 1);
            assert(FRACTION_SPAN * pow2(e + 1) == kept * step && (-(FRACTION_SPAN as int)) * pow2(
                e + 1,
            ) == -(kept * step)) by (nonlinear_arith)
                requires
                    pow2(e + 1) == 2 * step,
                    kept == 2 * FRACTION_SPAN,
            ;
        } else {
            lemma_compose_parts(negative, scale + dropped + 1075, kept - FRACTION_SPAN);
            assert(significand(r) == kept);
            assert(exponent(r) == scale + dropped);
            assert((-kept) * step == -(kept * step)) by (nonlinear_arith);
        }
        let found: int = if negative {
            -(kept * step)
        } else {
            kept * step
        };
        assert(scaled_value(r) == found);
        assert(significand(r) % 2 == 0 || (kept == low && low % 2 == 1) || (kept == low + 1 && low
            % 2 == 0));
        let target = a * base;
        let first = rest * base;
        let down = low * step;
        assert(target == down + first && 0 <= first <= step && (low + 1) * step == down + step
            && kept * step == down + (if up {
            step
        } else {
            0
        }) && (2 * rest > d <==> 2 * first > step) && (2 * rest == d <==> 2 * first == step)
            && v == (if negative {
            -target
        } else {
            target
        })) by (nonlinear_arith)
            requires
                a == d * low + rest,
                0 <= rest < d,
                step == d * base,
                base >= 1,
                target == a * base,
                first == rest * base,
                down == low * step,
                kept == (if up {
                    low + 1
                } else {
                    low
                }),
                v == signed * base,
                signed == (if negative {
                    -(a as int)
                } else {
                    a as int
                }),
        ;
        assert forall|c: Binary64| is_finite(c) implies distance(r, v) <= #[trigger] distance(
            c,
            v,
        ) && (scaled_value(c) != scaled_value(r) && distance(c, v) == distance(r, v)
            ==> significand(r) % 2 == 0) by {
            lemma_bracket(c, low, e);
            let y = if negative {
                -scaled_value(c)
            } else {
                scaled_value(c)
            };
            lemma_between(y, target, down, step, first, kept * step);
        }
    }
}

/// Around a normal number there is room: every other finite number is at
/// least half of its last binary place away.
proof fn lemma_gap(d: Binary64, c: Binary64)
    requires
        is_finite(d),
        is_finite(c),
        exponent_field(d) >= 2,
        scaled_value(c) != scaled_value(d),
    ensures
        scaled_value(c) - scaled_value(d) >= pow2((exponent(d) + 1073) as nat) || scaled_value(d)
            - scaled_value(c) >= pow2((exponent(d) + 1073) as nat),
{
    lemma_parts(d);
    lemma_parts(c);
    let md = significand(d);
    let sd = signed_significand(d);
    let mc = significand(c);
    let sc = signed_significand(c);
    let half = (exponent(d) + 1073) as nat;
    let g = pow2(half) as int;
    let tc = (exponent(c) + 1074) as nat;
    let pc = pow2(tc) as int;
    lemma_pow2_pos(half);
    lemma_pow2_pos(tc);
    lemma_pow2_unfold(half + 1);
    let vd = scaled_value(d);
    let vc = scaled_value(c);
    assert(vd == sd * (2 * g));
    if tc >= half {
        lemma_pow2_adds(half, (tc - half) as nat);
        let w = pow2((tc - half) as nat) as int;
        let j = sc * w - 2 * sd;
        assert(vc - vd == j * g) by (nonlinear_arith)
            requires
                vc == sc * pc,
                vd == sd * (2 * g),
                pc == g * w,
                j == sc * w - 2 * sd,
        ;
        assert(j * g >= g || j * g <= -g) by (nonlinear_arith)
            requires
                j * g != 0,
                g >= 1,
        ;
    } else {
        lemma_pow2_adds(tc, (half - tc) as nat);
        lemma_pow2_ordered(1, (half - tc) as nat);
        lemma2_to64();
        let ratio = pow2((half - tc) as nat) as int;
        let wide = FRACTION_SPAN * g;
        assert(-wide < vc < wide) by (nonlinear_arith)
            requires
                vc == sc * pc,
                sc == mc || sc == -mc,
                0 <= mc < 2 * FRACTION_SPAN,
                wide == FRACTION_SPAN * g,
                g == pc * ratio,
                ratio >= 2,
                pc >= 1,
        ;
        assert((vd >= 2 * wide || vd <= -(2 * wide)) && wide >= g) by (nonlinear_arith)
            requires
                vd == sd * (2 * g),
                sd == md || sd == -md,
                md >= FRACTION_SPAN,
                wide == FRACTION_SPAN * g,
                g >= 1,
        ;
    }
}

/// What `offset_by` gives is the binary64 number nearest to the sum of
/// the coordinate and the offset, and of two equally near ones the one
/// whose significand is even. Under an offset other than 0 it is never
/// the negative zero.
pub proof fn lemma_offset_nearest(bits: Binary64, k: int)
    requires
        is_finite(bits),
        -OFFSET_LIMIT < k < OFFSET_LIMIT,
    ensures
        is_nearest(offset_by(bits, k), scaled_value(bits) + scaled_offset(k)),
        k != 0 ==> offset_by(bits, k) != SIGN_WEIGHT,
{
    lemma_parts(bits);
    lemma_pow2_40();
    lemma_pow2_53();
    lemma_pow2_110();
    let m = significand(bits);
    let q = exponent(bits);
    let sm = signed_significand(bits);
    let tq = (q + 1074) as nat;
    let pq = pow2(tq) as int;
    let unit = pow2(1074) as int;
    let size = magnitude(k);
    let len = bit_length(size);
    let v = scaled_value(bits) + scaled_offset(k);
    let found = offset_by(bits, k);
    lemma_pow2_pos(tq);
    lemma_pow2_pos(1074);
    if k == 0 {
        assert(distance(bits, v) == 0);
    } else if q >= 42 {
        lemma_pow2_adds(40, 1074);
        lemma_pow2_ordered(1115, (q + 1073) as nat);
        lemma_pow2_unfold(1115);
        let cap = pow2(1114) as int;
        assert(-cap < k * unit < cap) by (nonlinear_arith)
            requires
                -0x100_0000_0000 < k < 0x100_0000_0000,
                unit >= 1,
                cap == 0x100_0000_0000 * unit,
        ;
        assert forall|c: Binary64| is_finite(c) implies distance(found, v) <= #[trigger] distance(
            c,
            v,
        ) && (scaled_value(c) != scaled_value(found) && distance(c, v) == distance(found, v)
            ==> significand(found) % 2 == 0) by {
            if scaled_value(c) != scaled_value(bits) {
                lemma_gap(bits, c);
            }
        }
    } else {
        lemma_bit_length_at_most(size, 40);
        lemma_bit_length_bounds(size);
        if m == 0 {
            lemma_rounded_nearest(k < 0, size, 0);
            assert(sm * pq == 0) by (nonlinear_arith)
                requires
                    sm == 0,
            ;
        } else if q + 108 <= len {
            lemma_rounded_exact(k < 0, size, 0);
            lemma_pow2_adds(53, tq);
            lemma_pow2_ordered(53 + tq, (len + 1019) as nat);
            lemma_pow2_unfold((len + 1020) as nat);
            let cap = pow2(53 + tq) as int;
            assert(-cap < sm * pq < cap) by (nonlinear_arith)
                requires
                    0 <= m < 2 * FRACTION_SPAN,
                    sm == m || sm == -m,
                    cap == 2 * FRACTION_SPAN * pq,
                    pq >= 1,
            ;
            assert(scaled_value(found) == k * unit);
            assert forall|c: Binary64| is_finite(c) implies distance(found, v)
                <= #[trigger] distance(c, v) && (scaled_value(c) != scaled_value(found)
                && distance(c, v) == distance(found, v) ==> significand(found) % 2 == 0) by {
                if scaled_value(c) != scaled_value(found) {
                    lemma_gap(found, c);
                }
            }
        } else if q >= 0 {
            let pw = pow2(q as nat) as int;
            let sum = sm * pw + k;
            lemma_pow2_adds(q as nat, 1074);
            lemma_pow2_ordered(q as nat, 41);
            lemma_pow2_unfold(41);
            assert(v == sum * unit) by (nonlinear_arith)
                requires
                    v == sm * pq + k * unit,
                    pq == pw * unit,
                    sum == sm * pw + k,
            ;
            assert(-0x4000_0000_0000_0000_0000_0000 < sm * pw < 0x4000_0000_0000_0000_0000_0000)
                by (nonlinear_arith)
                requires
                    0 <= m < 0x20_0000_0000_0000,
                    sm == m || sm == -m,
                    1 <= pw <= 0x200_0000_0000,
            ;
            lemma_sum_nearest(sum, 0);
        } else {
            let pw = pow2((-q) as nat) as int;
            let sum = sm + k * pw;
            lemma_pow2_adds((-q) as nat, tq);
            lemma_pow2_pos((-q) as nat);
            assert(v == sum * pq) by (nonlinear_arith)
                requires
                    v == sm * pq + k * unit,
                    unit == pw * pq,
                    sum == sm + k * pw,
            ;
            lemma_pow2_adds(len, (-q) as nat);
            lemma_pow2_ordered((len - q) as nat, 107);
            lemma_pow2_ordered(53, 107);
            lemma_pow2_adds(107, 3);
            lemma2_to64();
            let high = pow2(len) as int;
            let cap = pow2((len - q) as nat) as int;
            assert(-cap < k * pw < cap) by (nonlinear_arith)
                requires
                    0 <= size < high,
                    k == size || k == -size,
                    cap == high * pw,
                    pw >= 1,
            ;
            lemma_sum_nearest(sum, q);
        }
    }
}

/// The rounding of a sum that was formed exactly is the binary64 number
/// nearest to it; the sum 0 gives the positive zero.
proof fn lemma_sum_nearest(sum: int, scale: int)
    requires
        -1022 <= scale <= 913,
        magnitude(sum) < pow2(110),
    ensures
        is_nearest(
            rounded(sum < 0, magnitude(sum), scale),
            sum * pow2((scale + 1074) as nat),
        ),
        rounded(sum < 0, magnitude(sum), scale) != SIGN_WEIGHT,
{
    let base = pow2((scale + 1074) as nat) as int;
    if sum == 0 {
        assert(sum * base == 0);
        assert(signed_significand(0) == 0);
        assert(scaled_value(0) == 0) by (nonlinear_arith)
            requires
                scaled_value(0) == signed_significand(0) * pow2((exponent(0) + 1074) as nat),
                signed_significand(0) == 0,
        ;
        assert(distance(0, 0) == 0);
    } else {
        let a = magnitude(sum);
        lemma_bit_length_at_most(a, 110);
        lemma_bit_length_bounds(a);
        lemma_rounded_nearest(sum < 0, a, scale);
    }
}

/// Where the number of `bits` plus the offset `k` is itself a binary64
/// number, `offset_by` gives the bits of that number. Of the two zeros it
/// gives the positive one.
pub proof fn lemma_offset_exact(bits: Binary64, k: int, r: Binary64)
    requires
        k != 0,
        -OFFSET_LIMIT < k < OFFSET_LIMIT,
        is_exact_sum(bits, k, r),
        r != SIGN_WEIGHT,
    ensures
        offset_by(bits, k) == r,
{
    let found = offset_by(bits, k);
    let v = scaled_value(bits) + scaled_offset(k);
    lemma_offset_nearest(bits, k);
    assert(distance(r, v) == 0);
    assert(scaled_value(found) == scaled_value(r));
    if scaled_value(r) == 0 {
        lemma_zero(r);
        lemma_zero(found);
    } else {
        lemma_same_value(found, r);
    }
}

/// The way there and back: where the sum of a coordinate and an offset is
/// itself a binary64 number, the offset and then its opposite give the
/// bits of the coordinate again. The negative zero is not restored by an
/// offset other than 0: the way back ends at the positive zero.
pub proof fn lemma_offset_round_trip(bits: Binary64, k: int)
    requires
        -OFFSET_LIMIT < k < OFFSET_LIMIT,
        k != 0 && is_finite(bits) ==> bits != SIGN_WEIGHT && is_exact_sum(
            bits,
            k,
            offset_by(bits, k),
        ),
    ensures
        offset_by(offset_by(bits, k), -k) == bits,
{
    if k != 0 && is_finite(bits) {
        let there = offset_by(bits, k);
        let unit = pow2(1074) as int;
        assert(scaled_offset(-k) == -scaled_offset(k)) by (nonlinear_arith)
            requires
                scaled_offset(-k) == (-k) * unit,
                scaled_offset(k) == k * unit,
        ;
        lemma_offset_exact(there, -k, bits);
    }
}

} // verus!
