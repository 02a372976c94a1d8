//! Morton (Z-order) codes: interleaving the bits of two coordinates, and the
//! proof that the Xbox deswizzling maps the pixels of a power-of-two texture
//! one to one onto the positions of its pixel stream.
use vstd::arithmetic::div_mod::{
    lemma_breakdown, lemma_div_denominator, lemma_fundamental_div_mod, lemma_fundamental_div_mod_converse,
};
use vstd::arithmetic::power2::{
    lemma2_to64, lemma_pow2_adds, lemma_pow2_pos, lemma_pow2_strictly_increases, lemma_pow2_unfold, pow2,
};
use vstd::bits::{lemma_u32_pow2_no_overflow, lemma_u32_shl_is_mul, lemma_u32_shr_is_div};
use vstd::prelude::*;

use super::xbox::{deswizzle_from, deswizzle_spec};

verus! {

/// The Morton code of the low `j` bits of `x` and `y`: bit `i` of `x`
/// becomes bit `2i` and bit `i` of `y` bit `2i + 1`.
pub open spec fn morton(x: nat, y: nat, j: nat) -> nat
    decreases j,
{
    if j == 0 {
        0
    } else {
        4 * morton(x / 2, y / 2, (j - 1) as nat) + x % 2 + 2 * (y % 2)
    }
}

/// `4^j`, as a power of two.
proof fn lemma_pow4_unfold(j: nat)
    requires
        j > 0,
    ensures
        pow2(2 * j) == 4 * pow2(2 * (j - 1) as nat),
{
    lemma_pow2_unfold(2 * j);
    lemma_pow2_unfold((2 * j - 1) as nat);
    assert((2 * j - 1 - 1) as nat == 2 * (j - 1) as nat);
}

/// A Morton code of `j` bits lies below `4^j`.
pub proof fn lemma_morton_bound(x: nat, y: nat, j: nat)
    ensures
        morton(x, y, j) < pow2(2 * j),
    decreases j,
{
    if j == 0 {
        lemma2_to64();
    } else {
        lemma_morton_bound(x / 2, y / 2, (j - 1) as nat);
        lemma_pow4_unfold(j);
    }
}

/// Only the low `j` bits of the coordinates count.
pub proof fn lemma_morton_low_bits(x: nat, y: nat, j: nat)
    ensures
        morton(x, y, j) == morton(x % pow2(j), y % pow2(j), j),
    decreases j,
{
    if j > 0 {
        let p = pow2((j - 1) as nat);
        lemma_pow2_unfold(j);
        lemma_pow2_pos((j - 1) as nat);
        lemma_morton_low_bits(x / 2, y / 2, (j - 1) as nat);
        lemma_breakdown(x as int, 2, p as int);
        lemma_breakdown(y as int, 2, p as int);
        let xm = (x / 2) % p;
        let ym = (y / 2) % p;
        assert(pow2(j) == 2 * p);
        assert(x % pow2(j) == 2 * xm + x % 2);
        assert(y % pow2(j) == 2 * ym + y % 2);
        lemma_fundamental_div_mod_converse((x % pow2(j)) as int, 2, xm as int, (x % 2) as int);
        lemma_fundamental_div_mod_converse((y % pow2(j)) as int, 2, ym as int, (y % 2) as int);
        assert(xm % p == xm) by {
            lemma_fundamental_div_mod_converse(xm as int, p as int, 0, xm as int);
        }
        assert(ym % p == ym) by {
            lemma_fundamental_div_mod_converse(ym as int, p as int, 0, ym as int);
        }
        assert(morton(x % pow2(j), y % pow2(j), j) == 4 * morton(xm, ym, (j - 1) as nat) + x % 2 + 2 * (y % 2));
        assert(morton(x / 2, y / 2, (j - 1) as nat) == morton(xm, ym, (j - 1) as nat));
        assert(morton(x, y, j) == 4 * morton(x / 2, y / 2, (j - 1) as nat) + x % 2 + 2 * (y % 2));
        assert(morton(x, y, j) == morton(x % pow2(j), y % pow2(j), j));
    } else {
        lemma_pow2_pos(j);
    }
}

/// Adding bit `s` of both coordinates to a Morton code of `s` bits.
pub proof fn lemma_morton_step(x: nat, y: nat, s: nat)
    ensures
        morton(x, y, s + 1) == morton(x, y, s) + pow2(2 * s) * ((x / pow2(s)) % 2 + 2 * ((y / pow2(s)) % 2)),
    decreases s,
{
    if s == 0 {
        lemma2_to64();
        assert(morton(x, y, 1) == 4 * morton(x / 2, y / 2, 0) + x % 2 + 2 * (y % 2));
    } else {
        lemma_morton_step(x / 2, y / 2, (s - 1) as nat);
        lemma_pow2_unfold(s);
        lemma_pow2_pos((s - 1) as nat);
        lemma_pow4_unfold(s);
        lemma_div_denominator(x as int, 2, pow2((s - 1) as nat) as int);
        lemma_div_denominator(y as int, 2, pow2((s - 1) as nat) as int);
        let t = (x / pow2(s)) % 2 + 2 * ((y / pow2(s)) % 2);
        assert(morton(x, y, s + 1) == 4 * morton(x / 2, y / 2, s) + x % 2 + 2 * (y % 2));
        assert(morton(x, y, s) == 4 * morton(x / 2, y / 2, (s - 1) as nat) + x % 2 + 2 * (y % 2));
        assert(4 * (pow2(2 * (s - 1) as nat) * t) == pow2(2 * s) * t) by (nonlinear_arith)
            requires pow2(2 * s) == 4 * pow2(2 * (s - 1) as nat);
    }
}

/// Coordinates below `2^j` are told apart by their Morton code.
pub proof fn lemma_morton_injective(x1: nat, y1: nat, x2: nat, y2: nat, j: nat)
    requires
        x1 < pow2(j),
        y1 < pow2(j),
        x2 < pow2(j),
        y2 < pow2(j),
        morton(x1, y1, j) == morton(x2, y2, j),
    ensures
        x1 == x2,
        y1 == y2,
    decreases j,
{
    if j == 0 {
        lemma2_to64();
    } else {
        lemma_pow2_unfold(j);
        let p = pow2((j - 1) as nat);
        let m1 = morton(x1 / 2, y1 / 2, (j - 1) as nat);
        let m2 = morton(x2 / 2, y2 / 2, (j - 1) as nat);
        let r1 = x1 % 2 + 2 * (y1 % 2);
        let r2 = x2 % 2 + 2 * (y2 % 2);
        lemma_fundamental_div_mod_converse((4 * m1 + r1) as int, 4, m1 as int, r1 as int);
        lemma_fundamental_div_mod_converse((4 * m2 + r2) as int, 4, m2 as int, r2 as int);
        assert(m1 == m2 && r1 == r2);
        lemma_morton_injective(x1 / 2, y1 / 2, x2 / 2, y2 / 2, (j - 1) as nat);
        lemma_fundamental_div_mod(x1 as int, 2);
        lemma_fundamental_div_mod(x2 as int, 2);
        lemma_fundamental_div_mod(y1 as int, 2);
        lemma_fundamental_div_mod(y2 as int, 2);
    }
}

/// Every position below `4^j` is the Morton code of coordinates below `2^j`.
pub proof fn lemma_morton_onto(p: nat, j: nat) -> (xy: (nat, nat))
    requires
        p < pow2(2 * j),
    ensures
        xy.0 < pow2(j),
        xy.1 < pow2(j),
        morton(xy.0, xy.1, j) == p,
    decreases j,
{
    if j == 0 {
        lemma2_to64();
        (0, 0)
    } else {
        lemma_pow2_unfold(j);
        lemma_pow4_unfold(j);
        lemma_fundamental_div_mod(p as int, 4);
        let q = p / 4;
        let r = p % 4;
        let (x0, y0) = lemma_morton_onto(q, (j - 1) as nat);
        let x = 2 * x0 + r % 2;
        let y = 2 * y0 + r / 2;
        lemma_fundamental_div_mod_converse(x as int, 2, x0 as int, (r % 2) as int);
        lemma_fundamental_div_mod_converse(y as int, 2, y0 as int, (r / 2) as int);
        assert(morton(x, y, j) == 4 * morton(x / 2, y / 2, (j - 1) as nat) + x % 2 + 2 * (y % 2));
        (x, y)
    }
}

/// One step of the deswizzling loop places bits `s` of `x` and `y` at bits
/// `2s` and `2s + 1`, above the bits placed before.
proof fn lemma_bits_step(x: u32, y: u32, s: u32, t: u32, off: u32)
    requires
        s <= 14,
        t == 2 * s,
        off < (1u32 << t),
    ensures
        off | ((((y & (1u32 << s)) << 1u32) | (x & (1u32 << s))) << s) == off + ((x >> s) & 1u32) * (1u32 << t)
            + ((y >> s) & 1u32) * (2 * (1u32 << t)),
{
    assert(off | ((((y & (1u32 << s)) << 1u32) | (x & (1u32 << s))) << s) == off + ((x >> s) & 1u32) * (1u32 << t)
        + ((y >> s) & 1u32) * (2 * (1u32 << t))) by (bit_vector)
        requires
            s <= 14,
            t == 2 * s,
            off < (1u32 << t),
    ;
}

/// The deswizzling loop, started at bit `s` with the Morton code of the low
/// `s` bits, ends with the Morton code of the low `k` bits below the
/// remaining high bits, where the smaller side is `2^k`.
proof fn lemma_deswizzle_from(x: u32, y: u32, k: u32, s: u32, off: u32)
    requires
        k <= 15,
        s <= k,
        off == morton(x as nat, y as nat, s as nat),
    ensures
        deswizzle_from(x, y, 1u32 << k, s, off) == (morton(x as nat, y as nat, k as nat) as u32) | (((x | y) >> k) << ((
        k * 2) as u32)),
    decreases k - s,
{
    assert(s < 16 && ((1u32 << s) < (1u32 << k) <==> s < k)) by (bit_vector)
        requires
            s <= k,
            k <= 15,
    ;
    if s < k {
        let t = (2 * s) as u32;
        lemma_morton_bound(x as nat, y as nat, s as nat);
        lemma_u32_pow2_no_overflow(t as nat);
        lemma_u32_shl_is_mul(1, t);
        lemma_bits_step(x, y, s, t, off);
        lemma_u32_shr_is_div(x, s);
        lemma_u32_shr_is_div(y, s);
        let xs = x >> s;
        let ys = y >> s;
        assert(xs & 1u32 == xs % 2 && ys & 1u32 == ys % 2) by (bit_vector);
        lemma_morton_step(x as nat, y as nat, s as nat);
        let next = off | ((((y & (1u32 << s)) << 1u32) | (x & (1u32 << s))) << s);
        assert(next == morton(x as nat, y as nat, (s + 1) as nat)) by (nonlinear_arith)
            requires
                next == off + (xs % 2) * pow2(t as nat) + (ys % 2) * (2 * pow2(t as nat)),
                off == morton(x as nat, y as nat, s as nat),
                morton(x as nat, y as nat, (s + 1) as nat) == morton(x as nat, y as nat, s as nat) + pow2(2 * s as nat) * (((x as nat)
                    / pow2(s as nat)) % 2 + 2 * (((y as nat) / pow2(s as nat)) % 2)),
                t == 2 * s,
                xs == (x as nat) / pow2(s as nat),
                ys == (y as nat) / pow2(s as nat),
        ;
        lemma_deswizzle_from(x, y, k, (s + 1) as u32, next);
    } else {
        assert(s == k);
    }
}

/// Bits below `t` and a value shifted up by `t` add up without carries.
proof fn lemma_or_shifted(lo: u32, hi: u32, t: u32)
    requires
        t <= 30,
        lo < (1u32 << t),
    ensures
        lo | (hi << t) == lo + (hi << t),
{
    assert(lo | (hi << t) == lo + (hi << t)) by (bit_vector)
        requires
            t <= 30,
            lo < (1u32 << t),
    ;
}

/// Where deswizzling puts pixel (x, y) of a `2^a` x `2^b` texture whose
/// smaller side `m = 2^k` is at most 32768: the Morton code of the low `k`
/// bits, plus the high bits of the coordinate along the longer side times
/// `m * m` (the other coordinate has no high bits).
proof fn lemma_deswizzle_closed_form(x: u32, y: u32, width: u32, height: u32, a: nat, b: nat) -> (k: nat)
    requires
        width == pow2(a),
        height == pow2(b),
        width <= 32768 || height <= 32768,
        width * height <= 0x1_0000_0000,
        x < width,
        y < height,
    ensures
        k == if a <= b { a } else { b },
        k <= 15,
        pow2(2 * k) == pow2(k) * pow2(k),
        a <= b ==> x as nat / pow2(k) == 0,
        b < a ==> y as nat / pow2(k) == 0,
        deswizzle_spec(x, y, width, height) == morton(x as nat % pow2(k), y as nat % pow2(k), k) + (x as nat
            / pow2(k) + y as nat / pow2(k)) * pow2(2 * k),
        x as nat / pow2(k) + y as nat / pow2(k) < side_ratio(a, b),
        width * height == pow2(2 * k) * side_ratio(a, b),
{
    let k: nat = if a <= b { a } else { b };
    lemma2_to64();
    if a <= b && a > 15 {
        lemma_pow2_strictly_increases(15, a);
        lemma_pow2_strictly_increases(a, b);
    }
    if b < a && b > 15 {
        lemma_pow2_strictly_increases(15, b);
        lemma_pow2_strictly_increases(b, a);
    }
    if a < b {
        lemma_pow2_strictly_increases(a, b);
    }
    if b < a {
        lemma_pow2_strictly_increases(b, a);
    }
    assert(k <= 15);
    let m = pow2(k);
    lemma_pow2_adds(k, k);
    lemma_pow2_pos(k);
    lemma_u32_pow2_no_overflow(k);
    lemma_u32_shl_is_mul(1, k as u32);
    let min_dim: u32 = if width <= height { width } else { height };
    assert(min_dim == 1u32 << (k as u32));
    lemma_deswizzle_from(x, y, k as u32, 0, 0);
    let code = morton(x as nat, y as nat, k);
    lemma_morton_bound(x as nat, y as nat, k);
    lemma_morton_low_bits(x as nat, y as nat, k);
    let t = (k * 2) as u32;
    lemma_u32_pow2_no_overflow(t as nat);
    lemma_u32_shl_is_mul(1, t);
    lemma_u32_shr_is_div(x, k as u32);
    lemma_u32_shr_is_div(y, k as u32);
    lemma_fundamental_div_mod(x as int, m as int);
    lemma_fundamental_div_mod(y as int, m as int);
    let kk = k as u32;
    let hi: u32 = if a <= b {
        assert(x < (1u32 << kk) ==> (x | y) >> kk == y >> kk) by (bit_vector);
        assert(x as nat / m == 0) by {
            lemma_fundamental_div_mod_converse(x as int, m as int, 0, x as int);
        }
        y >> kk
    } else {
        assert(y < (1u32 << kk) ==> (x | y) >> kk == x >> kk) by (bit_vector);
        assert(y as nat / m == 0) by {
            lemma_fundamental_div_mod_converse(y as int, m as int, 0, y as int);
        }
        x >> kk
    };
    assert(hi == (x as nat / m + y as nat / m));
    // The high part fits: hi < (longer side) / m, so hi * m * m < width * height.
    let big: nat = if a <= b { height as nat } else { width as nat };
    let d = (if a <= b { b - a } else { a - b }) as nat;
    lemma_pow2_adds(k, d);
    assert(big == m * pow2(d));
    assert(width * height == m * m * pow2(d)) by (nonlinear_arith)
        requires
            big == m * pow2(d),
            (a <= b ==> width == m && height == big),
            (b < a ==> height == m && width == big),
    ;
    assert(hi < pow2(d)) by (nonlinear_arith)
        requires
            hi == (if a <= b { y as nat } else { x as nat }) / m,
            (if a <= b { y as nat } else { x as nat }) < m * pow2(d),
            m > 0,
    ;
    assert(hi * pow2(2 * k) <= u32::MAX) by (nonlinear_arith)
        requires
            hi < pow2(d),
            pow2(2 * k) == m * m,
            m * m * pow2(d) <= 0x1_0000_0000,
            m > 0,
    ;
    lemma_u32_shl_is_mul(hi, t);
    assert((code as u32) == code);
    lemma_or_shifted(code as u32, hi, t);
    k
}

/// How many times the longer side of a `2^a` x `2^b` texture holds the
/// shorter one.
spec fn side_ratio(a: nat, b: nat) -> nat {
    pow2((if a <= b { b - a } else { a - b }) as nat)
}

proof fn lemma_deswizzle_within(x: u32, y: u32, width: u32, height: u32, a: nat, b: nat)
    requires
        width == pow2(a),
        height == pow2(b),
        width <= 32768 || height <= 32768,
        width * height <= 0x1_0000_0000,
        x < width,
        y < height,
    ensures
        deswizzle_spec(x, y, width, height) < width * height,
{
    let k = lemma_deswizzle_closed_form(x, y, width, height, a, b);
    let m = pow2(k);
    lemma_pow2_pos(k);
    lemma_morton_bound(x as nat % m, y as nat % m, k);
    let q = x as nat / m + y as nat / m;
    let code = morton(x as nat % m, y as nat % m, k);
    assert(code + q * pow2(2 * k) < pow2(2 * k) * side_ratio(a, b)) by (nonlinear_arith)
        requires
            code < pow2(2 * k),
            q < side_ratio(a, b),
    ;
}

proof fn lemma_deswizzle_injective(x1: u32, y1: u32, x2: u32, y2: u32, width: u32, height: u32, a: nat, b: nat)
    requires
        width == pow2(a),
        height == pow2(b),
        width <= 32768 || height <= 32768,
        width * height <= 0x1_0000_0000,
        x1 < width,
        y1 < height,
        x2 < width,
        y2 < height,
        deswizzle_spec(x1, y1, width, height) == deswizzle_spec(x2, y2, width, height),
    ensures
        x1 == x2,
        y1 == y2,
{
    let k = lemma_deswizzle_closed_form(x1, y1, width, height, a, b);
    let k2 = lemma_deswizzle_closed_form(x2, y2, width, height, a, b);
    let m = pow2(k);
    lemma_pow2_pos(k);
    let mm = pow2(2 * k);
    let c1 = morton(x1 as nat % m, y1 as nat % m, k);
    let c2 = morton(x2 as nat % m, y2 as nat % m, k);
    lemma_morton_bound(x1 as nat % m, y1 as nat % m, k);
    lemma_morton_bound(x2 as nat % m, y2 as nat % m, k);
    let q1 = x1 as nat / m + y1 as nat / m;
    let q2 = x2 as nat / m + y2 as nat / m;
    lemma_fundamental_div_mod_converse((q1 * mm + c1) as int, mm as int, q1 as int, c1 as int);
    lemma_fundamental_div_mod_converse((q2 * mm + c2) as int, mm as int, q2 as int, c2 as int);
    assert(q1 == q2 && c1 == c2);
    lemma_fundamental_div_mod(x1 as int, m as int);
    lemma_fundamental_div_mod(x2 as int, m as int);
    lemma_fundamental_div_mod(y1 as int, m as int);
    lemma_fundamental_div_mod(y2 as int, m as int);
    lemma_morton_injective(x1 as nat % m, y1 as nat % m, x2 as nat % m, y2 as nat % m, k);
    assert(x1 as nat / m == x2 as nat / m && y1 as nat / m == y2 as nat / m);
}

proof fn lemma_deswizzle_onto(p: u32, width: u32, height: u32, a: nat, b: nat) -> (xy: (u32, u32))
    requires
        width == pow2(a),
        height == pow2(b),
        width <= 32768 || height <= 32768,
        width * height <= 0x1_0000_0000,
        p < width * height,
    ensures
        xy.0 < width,
        xy.1 < height,
        deswizzle_spec(xy.0, xy.1, width, height) == p,
{
    // The layout facts do not depend on the pixel; take pixel (0, 0).
    lemma_pow2_pos(a);
    lemma_pow2_pos(b);
    let k = lemma_deswizzle_closed_form(0, 0, width, height, a, b);
    let m = pow2(k);
    lemma_pow2_pos(k);
    let mm = pow2(2 * k);
    let ratio = side_ratio(a, b);
    lemma_fundamental_div_mod(p as int, mm as int);
    let q = p as nat / mm;
    let r = p as nat % mm;
    assert(q < ratio) by (nonlinear_arith)
        requires
            p == mm * q + r,
            r >= 0,
            p < mm * ratio,
            mm > 0,
    ;
    let (xs, ys) = lemma_morton_onto(r, k);
    let long = q * m + (if a <= b { ys } else { xs });
    assert(long < m * ratio) by (nonlinear_arith)
        requires
            long == q * m + (if a <= b { ys } else { xs }),
            xs < m,
            ys < m,
            q < ratio,
    ;
    let d = (if a <= b { b - a } else { a - b }) as nat;
    lemma_pow2_adds(k, d);
    let x: u32 = if a <= b { xs as u32 } else { long as u32 };
    let y: u32 = if a <= b { long as u32 } else { ys as u32 };
    let k2 = lemma_deswizzle_closed_form(x, y, width, height, a, b);
    lemma_fundamental_div_mod_converse(long as int, m as int, q as int, (if a <= b { ys } else { xs }) as int);
    lemma_fundamental_div_mod_converse(xs as int, m as int, 0, xs as int);
    lemma_fundamental_div_mod_converse(ys as int, m as int, 0, ys as int);
    assert(deswizzle_spec(x, y, width, height) == r + q * mm);
    (x, y)
}

/// Whether some pixel of a `width` x `height` texture is deswizzled to
/// position `p`.
pub open spec fn deswizzle_reaches(p: u32, width: u32, height: u32) -> bool {
    exists|x: u32, y: u32| x < width && y < height && #[trigger] deswizzle_spec(x, y, width, height) == p
}

/// For a texture whose sides are powers of two, the smaller at most 32768,
/// and whose pixels can be numbered in 32 bits, deswizzling maps the pixels
/// (x, y) one to one onto the positions `0 .. width * height` of the pixel
/// stream: every pixel lands inside, no two pixels land on one position,
/// and every position is reached.
pub proof fn law_deswizzle_one_to_one(width: u32, height: u32, a: nat, b: nat)
    requires
        width == pow2(a),
        height == pow2(b),
        width <= 32768 || height <= 32768,
        width * height <= 0x1_0000_0000,
    ensures
        forall|x: u32, y: u32| x < width && y < height ==> #[trigger] deswizzle_spec(x, y, width, height) < width * height,
        forall|x1: u32, y1: u32, x2: u32, y2: u32|
            x1 < width && y1 < height && x2 < width && y2 < height && #[trigger] deswizzle_spec(x1, y1, width, height)
                == #[trigger] deswizzle_spec(x2, y2, width, height) ==> x1 == x2 && y1 == y2,
        forall|p: u32| p < width * height ==> #[trigger] deswizzle_reaches(p, width, height),
{
    assert forall|x: u32, y: u32| x < width && y < height implies #[trigger] deswizzle_spec(x, y, width, height) < width * height by {
        lemma_deswizzle_within(x, y, width, height, a, b);
    }
    assert forall|x1: u32, y1: u32, x2: u32, y2: u32|
        x1 < width && y1 < height && x2 < width && y2 < height && #[trigger] deswizzle_spec(x1, y1, width, height)
            == #[trigger] deswizzle_spec(x2, y2, width, height) implies x1 == x2 && y1 == y2 by {
        lemma_deswizzle_injective(x1, y1, x2, y2, width, height, a, b);
    }
    assert forall|p: u32| p < width * height implies #[trigger] deswizzle_reaches(p, width, height) by {
        let (x, y) = lemma_deswizzle_onto(p, width, height, a, b);
    }
}

} // verus!
