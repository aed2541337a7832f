//! The text that `{:.N}` prints for quotients of whole numbers computed in
//! `f64`, worked out exactly in integers: an `f64` is a 53-bit significand
//! scaled by a power of two, every operation rounds to the nearest such
//! value (ties to an even significand), and fixed-point printing rounds the
//! exact binary value to the nearest decimal (ties to an even last digit).
use vstd::prelude::*;
use crate::text::{decimal, digit, digit_char, push_decimal};

verus! {

/// 2 to the power `n`.
pub open spec fn exp2(n: nat) -> nat
    decreases n,
{
    if n == 0 {
        1
    } else {
        2 * exp2((n - 1) as nat)
    }
}

/// 10 to the power `n`.
pub open spec fn exp10(n: nat) -> nat
    decreases n,
{
    if n == 0 {
        1
    } else {
        10 * exp10((n - 1) as nat)
    }
}

pub proof fn lemma_exp2_pos(n: nat)
    ensures
        exp2(n) >= 1,
    decreases n,
{
    if n > 0 {
        lemma_exp2_pos((n - 1) as nat);
    }
}

pub proof fn lemma_exp2_add(a: nat, b: nat)
    ensures
        exp2(a + b) == exp2(a) * exp2(b),
    decreases a,
{
    if a > 0 {
        let a1 = (a - 1) as nat;
        lemma_exp2_add(a1, b);
        assert(a1 + b == (a + b - 1) as nat);
        assert(exp2(a + b) == 2 * exp2(a1 + b));
        let x = exp2(a1);
        let y = exp2(b);
        assert(exp2(a) == 2 * x);
        assert(2 * (x * y) == (2 * x) * y) by (nonlinear_arith);
    } else {
        assert(exp2(0) == 1);
        assert(a + b == b);
    }
}

pub proof fn lemma_exp2_mono(a: nat, b: nat)
    requires
        a <= b,
    ensures
        exp2(a) <= exp2(b),
    decreases b,
{
    if a < b {
        lemma_exp2_mono(a, (b - 1) as nat);
    }
}

pub proof fn lemma_exp2_table()
    ensures
        exp2(11) == 0x800,
        exp2(12) == 0x1000,
        exp2(52) == 0x10000000000000,
        exp2(53) == 0x20000000000000,
        exp2(64) == 0x10000000000000000,
        exp2(65) == 0x20000000000000000,
        exp2(126) == 0x40000000000000000000000000000000,
        exp2(13) == 0x2000,
        exp2(10) == 0x400,
        exp2(20) == 0x100000,
        exp2(30) == 0x40000000,
        exp2(40) == 0x10000000000,
        exp2(66) == 0x40000000000000000,
        exp2(72) == 0x1000000000000000000,
        exp2(73) == 0x2000000000000000000,
        exp2(117) == 0x200000000000000000000000000000,
        exp2(118) == 0x400000000000000000000000000000,
{
    assert(exp2(0) == 0x1);
    assert(exp2(1) == 0x2);
    assert(exp2(2) == 0x4);
    assert(exp2(3) == 0x8);
    assert(exp2(4) == 0x10);
    assert(exp2(5) == 0x20);
    assert(exp2(6) == 0x40);
    assert(exp2(7) == 0x80);
    assert(exp2(8) == 0x100);
    assert(exp2(9) == 0x200);
    assert(exp2(10) == 0x400);
    assert(exp2(11) == 0x800);
    assert(exp2(12) == 0x1000);
    assert(exp2(13) == 0x2000);
    assert(exp2(14) == 0x4000);
    assert(exp2(15) == 0x8000);
    assert(exp2(16) == 0x10000);
    assert(exp2(17) == 0x20000);
    assert(exp2(18) == 0x40000);
    assert(exp2(19) == 0x80000);
    assert(exp2(20) == 0x100000);
    assert(exp2(21) == 0x200000);
    assert(exp2(22) == 0x400000);
    assert(exp2(23) == 0x800000);
    assert(exp2(24) == 0x1000000);
    assert(exp2(25) == 0x2000000);
    assert(exp2(26) == 0x4000000);
    assert(exp2(27) == 0x8000000);
    assert(exp2(28) == 0x10000000);
    assert(exp2(29) == 0x20000000);
    assert(exp2(30) == 0x40000000);
    assert(exp2(31) == 0x80000000);
    assert(exp2(32) == 0x100000000);
    assert(exp2(33) == 0x200000000);
    assert(exp2(34) == 0x400000000);
    assert(exp2(35) == 0x800000000);
    assert(exp2(36) == 0x1000000000);
    assert(exp2(37) == 0x2000000000);
    assert(exp2(38) == 0x4000000000);
    assert(exp2(39) == 0x8000000000);
    assert(exp2(40) == 0x10000000000);
    assert(exp2(41) == 0x20000000000);
    assert(exp2(42) == 0x40000000000);
    assert(exp2(43) == 0x80000000000);
    assert(exp2(44) == 0x100000000000);
    assert(exp2(45) == 0x200000000000);
    assert(exp2(46) == 0x400000000000);
    assert(exp2(47) == 0x800000000000);
    assert(exp2(48) == 0x1000000000000);
    assert(exp2(49) == 0x2000000000000);
    assert(exp2(50) == 0x4000000000000);
    assert(exp2(51) == 0x8000000000000);
    assert(exp2(52) == 0x10000000000000);
    assert(exp2(53) == 0x20000000000000);
    assert(exp2(54) == 0x40000000000000);
    assert(exp2(55) == 0x80000000000000);
    assert(exp2(56) == 0x100000000000000);
    assert(exp2(57) == 0x200000000000000);
    assert(exp2(58) == 0x400000000000000);
    assert(exp2(59) == 0x800000000000000);
    assert(exp2(60) == 0x1000000000000000);
    assert(exp2(61) == 0x2000000000000000);
    assert(exp2(62) == 0x4000000000000000);
    assert(exp2(63) == 0x8000000000000000);
    assert(exp2(64) == 0x10000000000000000);
    assert(exp2(65) == 0x20000000000000000);
    assert(exp2(66) == 0x40000000000000000);
    assert(exp2(67) == 0x80000000000000000);
    assert(exp2(68) == 0x100000000000000000);
    assert(exp2(69) == 0x200000000000000000);
    assert(exp2(70) == 0x400000000000000000);
    assert(exp2(71) == 0x800000000000000000);
    assert(exp2(72) == 0x1000000000000000000);
    assert(exp2(73) == 0x2000000000000000000);
    assert(exp2(74) == 0x4000000000000000000);
    assert(exp2(75) == 0x8000000000000000000);
    assert(exp2(76) == 0x10000000000000000000);
    assert(exp2(77) == 0x20000000000000000000);
    assert(exp2(78) == 0x40000000000000000000);
    assert(exp2(79) == 0x80000000000000000000);
    assert(exp2(80) == 0x100000000000000000000);
    assert(exp2(81) == 0x200000000000000000000);
    assert(exp2(82) == 0x400000000000000000000);
    assert(exp2(83) == 0x800000000000000000000);
    assert(exp2(84) == 0x1000000000000000000000);
    assert(exp2(85) == 0x2000000000000000000000);
    assert(exp2(86) == 0x4000000000000000000000);
    assert(exp2(87) == 0x8000000000000000000000);
    assert(exp2(88) == 0x10000000000000000000000);
    assert(exp2(89) == 0x20000000000000000000000);
    assert(exp2(90) == 0x40000000000000000000000);
    assert(exp2(91) == 0x80000000000000000000000);
    assert(exp2(92) == 0x100000000000000000000000);
    assert(exp2(93) == 0x200000000000000000000000);
    assert(exp2(94) == 0x400000000000000000000000);
    assert(exp2(95) == 0x800000000000000000000000);
    assert(exp2(96) == 0x1000000000000000000000000);
    assert(exp2(97) == 0x2000000000000000000000000);
    assert(exp2(98) == 0x4000000000000000000000000);
    assert(exp2(99) == 0x8000000000000000000000000);
    assert(exp2(100) == 0x10000000000000000000000000);
    assert(exp2(101) == 0x20000000000000000000000000);
    assert(exp2(102) == 0x40000000000000000000000000);
    assert(exp2(103) == 0x80000000000000000000000000);
    assert(exp2(104) == 0x100000000000000000000000000);
    assert(exp2(105) == 0x200000000000000000000000000);
    assert(exp2(106) == 0x400000000000000000000000000);
    assert(exp2(107) == 0x800000000000000000000000000);
    assert(exp2(108) == 0x1000000000000000000000000000);
    assert(exp2(109) == 0x2000000000000000000000000000);
    assert(exp2(110) == 0x4000000000000000000000000000);
    assert(exp2(111) == 0x8000000000000000000000000000);
    assert(exp2(112) == 0x10000000000000000000000000000);
    assert(exp2(113) == 0x20000000000000000000000000000);
    assert(exp2(114) == 0x40000000000000000000000000000);
    assert(exp2(115) == 0x80000000000000000000000000000);
    assert(exp2(116) == 0x100000000000000000000000000000);
    assert(exp2(117) == 0x200000000000000000000000000000);
    assert(exp2(118) == 0x400000000000000000000000000000);
    assert(exp2(119) == 0x800000000000000000000000000000);
    assert(exp2(120) == 0x1000000000000000000000000000000);
    assert(exp2(121) == 0x2000000000000000000000000000000);
    assert(exp2(122) == 0x4000000000000000000000000000000);
    assert(exp2(123) == 0x8000000000000000000000000000000);
    assert(exp2(124) == 0x10000000000000000000000000000000);
    assert(exp2(125) == 0x20000000000000000000000000000000);
    assert(exp2(126) == 0x40000000000000000000000000000000);
}

pub proof fn lemma_exp2_small()
    ensures
        exp2(10) == 1024,
        exp2(20) == 0x10_0000,
        exp2(30) == 0x4000_0000,
        exp2(40) == 0x100_0000_0000,
{
    lemma_exp2_table();
}

/// `n / d` rounded to the nearest whole number, ties to even.
pub open spec fn rne(n: nat, d: nat) -> nat {
    let q = n / d;
    let r = n % d;
    if 2 * r > d || (2 * r == d && q % 2 == 1) {
        q + 1
    } else {
        q
    }
}

/// `n / d` rounded to the nearest whole number, ties to even.
pub fn rne_exec(n: u128, d: u128) -> (r: u128)
    requires
        0 < d < 0x4000_0000_0000_0000_0000_0000_0000_0000,
        n < 0xffff_ffff_ffff_ffff_ffff_ffff_ffff_ffff,
    ensures
        r == rne(n as nat, d as nat),
        r as int <= n as int / d as int + 1,
        r as int >= n as int / d as int,
{
    let q = n / d;
    let rem = n % d;
    assert(q <= n) by (nonlinear_arith)
        requires
            q == n / d,
            d > 0,
    ;
    if 2 * rem > d || (2 * rem == d && q % 2 == 1) {
        q + 1
    } else {
        q
    }
}

/// The number of binary digits of `n`.
pub open spec fn bit_len(n: nat) -> nat
    decreases n,
{
    if n == 0 {
        0
    } else {
        1 + bit_len(n / 2)
    }
}

proof fn lemma_bit_len_bounds(n: nat)
    requires
        n > 0,
    ensures
        bit_len(n) >= 1,
        exp2((bit_len(n) - 1) as nat) <= n < exp2(bit_len(n)),
    decreases n,
{
    if n >= 2 {
        lemma_bit_len_bounds(n / 2);
        let h = bit_len(n / 2);
        assert(bit_len(n) == 1 + h);
        assert(exp2(h) == 2 * exp2((h - 1) as nat));
        assert(exp2(h + 1) == 2 * exp2(h));
        assert(((h + 1) - 1) as nat == h);
    } else {
        assert(bit_len(n / 2) == 0);
        assert(bit_len(n) == 1);
        assert(exp2(0) == 1);
        assert(exp2(1) == 2);
    }
}

/// The value of a whole number `m` in a binary floating-point format with
/// `bits` significant bits: exact below `2^bits`, otherwise rounded to
/// `bits` significant bits, ties to even.
pub open spec fn float_of_int(m: nat, bits: nat) -> nat {
    if m < exp2(bits) {
        m
    } else {
        let s = (bit_len(m) - bits) as nat;
        rne(m, exp2(s)) * exp2(s)
    }
}

/// The value of `m as f64` for a whole number `m`.
pub open spec fn f64_of_int(m: nat) -> nat {
    float_of_int(m, 53)
}

/// The value of `m as f32` for a whole number `m`.
pub open spec fn f32_of_int(m: nat) -> nat {
    float_of_int(m, 24)
}

/// `2^n` as an exact integer (`n < 127`).
pub fn exp2_exec(n: u32) -> (r: u128)
    requires
        n < 127,
    ensures
        r == exp2(n as nat),
{
    let mut r: u128 = 1;
    let mut i: u32 = 0;
    while i < n
        invariant
            i <= n < 127,
            r == exp2(i as nat),
        decreases n - i,
    {
        proof {
            lemma_exp2_mono((i + 1) as nat, 126);
            lemma_exp2_table();
        }
        r = r * 2;
        i += 1;
    }
    r
}

/// The number of binary digits of `m`.
pub fn bit_len_exec(m: u64) -> (r: u32)
    ensures
        r == bit_len(m as nat),
        r <= 64,
    decreases m,
{
    proof {
        if m > 0 {
            lemma_bit_len_bounds(m as nat);
            lemma_exp2_table();
            if bit_len(m as nat) > 64 {
                lemma_exp2_mono(64, (bit_len(m as nat) - 1) as nat);
            }
        }
    }
    if m == 0 {
        0
    } else {
        1 + bit_len_exec(m / 2)
    }
}

/// The value of `m as f64`.
pub fn f64_of_u64(m: u64) -> (r: u128)
    ensures
        r == f64_of_int(m as nat),
        r <= 0x1_0000_0000_0000_0800,
        m >= 1000 ==> r >= 1000,
{
    proof {
        lemma_exp2_table();
    }
    if m < 0x20_0000_0000_0000 {
        return m as u128;
    }
    let b = bit_len_exec(m);
    proof {
        lemma_bit_len_bounds(m as nat);
        lemma_exp2_table();
        if b > 64 {
            lemma_exp2_mono(64, (b - 1) as nat);
        }
        if b < 54 {
            lemma_exp2_mono(b as nat, 53);
        }
    }
    let s = b - 53;
    let p = exp2_exec(s);
    proof {
        lemma_exp2_mono(s as nat, 11);
        lemma_exp2_table();
        lemma_exp2_pos(s as nat);
    }
    let q = rne_exec(m as u128, p);
    proof {
        lemma_exp2_add(52, s as nat);
        assert((b - 1) as nat == 52 + s as nat);
        let pi = p as int;
        let mi = m as int;
        let qi = q as int;
        assert(mi >= 0x10_0000_0000_0000 * pi);
        assert(mi / pi >= 0x10_0000_0000_0000) by (nonlinear_arith)
            requires
                mi >= 0x10_0000_0000_0000 * pi,
                pi > 0,
        ;
        assert(qi * pi >= 1000) by (nonlinear_arith)
            requires
                qi >= 0x10_0000_0000_0000,
                pi >= 1,
        ;
    }
    let ghost mi = m as int;
    let ghost pi = p as int;
    let ghost qi = q as int;
    assert(qi * pi <= (mi / pi + 1) * pi) by (nonlinear_arith)
        requires
            qi <= mi / pi + 1,
            pi > 0,
    ;
    assert((mi / pi + 1) * pi <= mi + pi) by (nonlinear_arith)
        requires
            pi > 0,
    ;
    q * p
}

/// The number of binary digits of `m`.
fn bit_len_u128(m: u128) -> (r: u32)
    ensures
        r == bit_len(m as nat),
        r <= 128,
    decreases m,
{
    proof {
        if m > 0 {
            lemma_bit_len_bounds(m as nat);
            if bit_len(m as nat) > 128 {
                lemma_exp2_mono(128, (bit_len(m as nat) - 1) as nat);
                lemma_exp2_add(126, 2);
                lemma_exp2_table();
                assert(exp2(2) == 4) by {
                    assert(exp2(0) == 1);
                    assert(exp2(1) == 2);
                }
            }
        }
    }
    if m == 0 {
        0
    } else {
        1 + bit_len_u128(m / 2)
    }
}

/// The value of a whole number `m < 2^72` in a binary floating-point format
/// with `bits` significant bits.
pub fn float_of_u128(m: u128, bits: u32) -> (r: u128)
    requires
        1 <= bits <= 53,
        m < 0x100_0000_0000_0000_0000,
    ensures
        r == float_of_int(m as nat, bits as nat),
        r <= 0x100_0000_0000_0000_0000,
{
    proof {
        lemma_exp2_table();
        lemma_exp2_mono(bits as nat, 53);
        lemma_exp2_pos(bits as nat);
    }
    let top = exp2_exec(bits);
    if m < top {
        return m;
    }
    let b = bit_len_u128(m);
    proof {
        lemma_bit_len_bounds(m as nat);
        if b > 72 {
            lemma_exp2_mono(72, (b - 1) as nat);
        }
        if b <= bits {
            lemma_exp2_mono(b as nat, bits as nat);
        }
    }
    let s = b - bits;
    let p = exp2_exec(s);
    proof {
        lemma_exp2_mono(s as nat, 71);
        lemma_exp2_pos(s as nat);
        lemma_exp2_add(bits as nat, s as nat);
    }
    let q = rne_exec(m, p);
    let ghost mi = m as int;
    let ghost pi = p as int;
    let ghost qi = q as int;
    let ghost ti = top as int;
    // The rounded significand stays at most 2^bits, so the value stays at most 2^b <= 2^72.
    assert(mi < ti * pi);
    assert(mi / pi < ti) by (nonlinear_arith)
        requires
            mi < ti * pi,
            pi > 0,
            mi >= 0,
    ;
    assert(qi * pi <= ti * pi) by (nonlinear_arith)
        requires
            qi <= mi / pi + 1,
            mi / pi < ti,
            pi > 0,
    ;
    proof {
        lemma_exp2_mono(b as nat, 72);
    }
    q * p
}

/// A multiple of `p` below `p * c` rounds to at most `p * c`.
proof fn lemma_rounded_at_most(m: nat, p: nat, c: nat)
    requires
        p > 0,
        m <= p * c,
    ensures
        rne(m, p) * p <= p * c,
{
    let q = rne(m, p);
    assert(q <= m / p + 1);
    if m == p * c {
        assert(m % p == 0 && m / p == c) by (nonlinear_arith)
            requires
                m == p * c,
                p > 0,
        ;
        assert(q == c);
        assert(q * p == p * c) by (nonlinear_arith)
            requires
                q == c,
        ;
    } else {
        assert(m / p < c) by (nonlinear_arith)
            requires
                m < p * c,
                p > 0,
        ;
        assert(q * p <= c * p) by (nonlinear_arith)
            requires
                q <= m / p + 1,
                m / p < c,
                p > 0,
        ;
        assert(c * p == p * c) by (nonlinear_arith);
    }
}

/// Converting a whole number to `f64` keeps it on the same side of any
/// threshold up to `2^52`: the conversion is exact below `2^53`, and above
/// it stays at least `2^52`.
pub proof fn lemma_f64_threshold(m: nat, t: nat)
    requires
        t <= exp2(52),
    ensures
        f64_of_int(m) >= t <==> m >= t,
{
    if m >= exp2(53) {
        lemma_exp2_pos(53);
        lemma_bit_len_bounds(m);
        let b = bit_len(m);
        assert(b >= 54) by {
            if b < 54 {
                lemma_exp2_mono(b, 53);
            }
        }
        let sh = (b - 53) as nat;
        let p = exp2(sh);
        lemma_exp2_pos(sh);
        lemma_exp2_add(52, sh);
        assert((b - 1) as nat == 52 + sh);
        let a = exp2(52);
        assert(m >= a * p);
        let q = m / p;
        assert(q >= a) by (nonlinear_arith)
            requires
                m >= a * p,
                p > 0,
                q == m / p,
        ;
        assert(rne(m, p) >= q);
        assert(rne(m, p) * p >= a) by (nonlinear_arith)
            requires
                rne(m, p) >= q,
                q >= a,
                p >= 1,
        ;
        assert(f64_of_int(m) == rne(m, p) * p);
        lemma_exp2_mono(52, 53);
    }
}

/// A whole number up to `2^64` stays at most `2^64` in a floating-point
/// format with at least one significant bit.
#[verifier::spinoff_prover]
pub proof fn lemma_float_of_int_bound(m: nat, bits: nat)
    requires
        m <= 0x1_0000_0000_0000_0000,
        1 <= bits <= 53,
    ensures
        float_of_int(m, bits) <= 0x1_0000_0000_0000_0000,
{
    lemma_exp2_table();
    lemma_exp2_pos(bits);
    if m >= exp2(bits) {
        lemma_bit_len_bounds(m);
        let b = bit_len(m);
        if b > 65 {
            lemma_exp2_mono(65, (b - 1) as nat);
        }
        if b <= bits {
            lemma_exp2_mono(b, bits);
        }
        let s = (b - bits) as nat;
        assert(s <= 64);
        lemma_exp2_pos(s);
        lemma_exp2_add(s, (64 - s) as nat);
        let p = exp2(s);
        let c = exp2((64 - s) as nat);
        assert(p * c == 0x1_0000_0000_0000_0000);
        lemma_rounded_at_most(m, p, c);
        assert(float_of_int(m, bits) == rne(m, p) * p);
    }
}

/// A positive whole number stays positive in a floating-point format.
pub proof fn lemma_float_of_int_pos(m: nat, bits: nat)
    requires
        m > 0,
        bits >= 1,
    ensures
        float_of_int(m, bits) > 0,
{
    if m >= exp2(bits) {
        lemma_bit_len_bounds(m);
        let s = (bit_len(m) - bits) as nat;
        lemma_exp2_pos(s);
        let p = exp2(s);
        assert(bit_len(m) >= bits) by {
            if bit_len(m) < bits {
                lemma_exp2_mono(bit_len(m), bits);
            }
        }
        lemma_exp2_mono(s, (bit_len(m) - 1) as nat);
        assert(m / p >= 1) by (nonlinear_arith)
            requires
                m >= p,
                p > 0,
        ;
        assert(rne(m, p) >= 1);
        assert(rne(m, p) * p > 0) by (nonlinear_arith)
            requires
                rne(m, p) >= 1,
                p > 0,
        ;
    }
}

/// The smallest `k` with `v < d * 2^(k+1)`, for `v >= d > 0`: the binary
/// exponent of `v / d`.
pub open spec fn ratio_log2(v: nat, d: nat) -> nat
    decreases v - d,
{
    if d == 0 || v < 2 * d {
        0
    } else {
        1 + ratio_log2(v, 2 * d)
    }
}

proof fn lemma_ratio_log2(v: nat, d: nat)
    requires
        0 < d <= v,
    ensures
        d * exp2(ratio_log2(v, d)) <= v < 2 * d * exp2(ratio_log2(v, d)),
    decreases v - d,
{
    if v >= 2 * d {
        lemma_ratio_log2(v, 2 * d);
        let k = ratio_log2(v, 2 * d);
        assert(ratio_log2(v, d) == k + 1);
        let e = exp2(k);
        let e1 = exp2(k + 1);
        assert(e1 == 2 * e);
        let dd = 2 * d;
        assert(dd * e <= v < 2 * dd * e);
        assert(dd * e == d * e1) by (nonlinear_arith)
            requires
                e1 == 2 * e,
                dd == 2 * d,
        ;
        assert(2 * dd * e == 2 * d * e1) by (nonlinear_arith)
            requires
                e1 == 2 * e,
                dd == 2 * d,
        ;
        assert(d * e1 <= v);
        assert(v < 2 * d * e1);
        assert(exp2(ratio_log2(v, d)) == e1);
    } else {
        assert(ratio_log2(v, d) == 0);
        assert(exp2(0) == 1);
        assert(d * exp2(0) == d);
        assert(2 * d * exp2(0) == 2 * d);
    }
}

/// The smallest `j` with `d <= v * 2^j`, for `0 < v < d`: minus the binary
/// exponent of `v / d`.
pub open spec fn ratio_log2_below(v: nat, d: nat) -> nat
    decreases d - v,
{
    if v == 0 || v >= d {
        0
    } else if 2 * v >= d {
        1
    } else {
        1 + ratio_log2_below(2 * v, d)
    }
}

proof fn lemma_ratio_log2_below(v: nat, d: nat)
    requires
        0 < v < d,
    ensures
        ratio_log2_below(v, d) >= 1,
        d <= v * exp2(ratio_log2_below(v, d)) < 2 * d,
    decreases d - v,
{
    if 2 * v < d {
        lemma_ratio_log2_below(2 * v, d);
        let j = ratio_log2_below(2 * v, d);
        assert(ratio_log2_below(v, d) == j + 1);
        assert(exp2(j + 1) == 2 * exp2(j));
        assert((2 * v) * exp2(j) == v * exp2(j + 1)) by (nonlinear_arith)
            requires
                exp2(j + 1) == 2 * exp2(j),
        ;
    } else {
        assert(ratio_log2_below(v, d) == 1);
        assert(exp2(1) == 2) by {
            assert(exp2(0) == 1);
        }
    }
}

/// The binary exponent of `v / d` for `v, d > 0`: the integer `k` with
/// `2^k <= v / d < 2^(k+1)`.
pub open spec fn ratio_exp(v: nat, d: nat) -> int {
    if v >= d {
        ratio_log2(v, d) as int
    } else {
        -(ratio_log2_below(v, d) as int)
    }
}

/// The scaled decimal digits that `{:.p}` prints for the quotient of `v` by
/// `d` (`d > 0`) in a binary floating-point format with `sig + 1`
/// significant bits: the quotient rounded to that many bits, ties to even,
/// then times `10^p`, rounded to a whole number.
pub open spec fn quotient_digits(v: nat, d: nat, p: nat, sig: nat) -> nat {
    let k = ratio_exp(v, d);
    if k <= sig {
        let s = (sig - k) as nat;
        let m = rne(v * exp2(s), d);
        rne(m * exp10(p), exp2(s))
    } else {
        let s = (k - sig) as nat;
        let m = rne(v, d * exp2(s));
        m * exp2(s) * exp10(p)
    }
}

/// The scaled decimal digits that `{:.p}` prints for the floating-point
/// quotient of `v` by `d` (52 for `f64`, 23 for `f32` as `sig`).
pub fn quotient_digits_exec(v: u128, d: u128, p: u32, sig: u32) -> (r: u128)
    requires
        0 < d <= 0x2_0000_0000_0000_0000,
        v <= 0x100_0000_0000_0000_0000,
        p <= 2,
        1 <= sig <= 52,
    ensures
        r == quotient_digits(v as nat, d as nat, p as nat, sig as nat),
{
    proof {
        lemma_exp2_table();
        lemma_exp2_mono(sig as nat, 52);
        lemma_exp2_mono((sig + 1) as nat, 53);
        lemma_exp2_pos(sig as nat);
    }
    let top = exp2_exec(sig);
    let top2 = 2 * top;
    assert(top2 == exp2((sig + 1) as nat));
    let ten_p: u128 = if p == 0 {
        1
    } else if p == 1 {
        10
    } else {
        100
    };
    assert(ten_p == exp10(p as nat)) by {
        reveal_with_fuel(exp10, 3);
    }
    if v == 0 {
        assert(ratio_log2_below(0, d as nat) == 0);
        assert(0nat / (d as nat) == 0 && 0nat % (d as nat) == 0) by (nonlinear_arith)
            requires
                d > 0,
        ;
        assert(0nat / (top as nat) == 0 && 0nat % (top as nat) == 0) by (nonlinear_arith)
            requires
                top > 0,
        ;
        assert(rne(0, d as nat) == 0);
        assert(rne(0, exp2(sig as nat)) == 0);
        assert(ratio_exp(0, d as nat) == 0);
        assert(0 * exp2(sig as nat) == 0);
        assert(0 * exp10(p as nat) == 0);
        return 0;
    }
    if v < d {
        // 0 < v < d: the exponent is -j, the shift sig + j.
        let ghost jj = ratio_log2_below(v as nat, d as nat);
        let mut vj: u128 = v;
        let mut j: u32 = 0;
        assert(exp2(0) == 1);
        while vj < d
            invariant
                0 < v <= vj < 2 * d,
                d <= 0x2_0000_0000_0000_0000,
                vj == v * exp2(j as nat),
                jj == j + ratio_log2_below(vj as nat, d as nat),
                j <= 66,
                exp2(j as nat) <= vj,
            decreases 66 - j,
        {
            proof {
                assert(exp2((j + 1) as nat) == 2 * exp2(j as nat));
                assert(v * exp2((j + 1) as nat) == 2 * (v * exp2(j as nat))) by (nonlinear_arith)
                    requires
                        exp2((j + 1) as nat) == 2 * exp2(j as nat),
                ;
                lemma_exp2_table();
                if j + 1 > 66 {
                    lemma_exp2_mono(66, (j + 1) as nat);
                }
            }
            vj = 2 * vj;
            j = j + 1;
        }
        proof {
            lemma_ratio_log2_below(v as nat, d as nat);
            assert(j == jj);
            lemma_exp2_add(j as nat, sig as nat);
            lemma_exp2_mono((sig + j) as nat, 118);
        }
        let sh = exp2_exec(sig + j);
        assert(vj * top < 0x4_0000_0000_0000_0000 * 0x10_0000_0000_0000) by (nonlinear_arith)
            requires
                vj < 2 * d,
                d <= 0x2_0000_0000_0000_0000,
                top <= 0x10_0000_0000_0000,
                top > 0,
        ;
        let n = vj * top;
        assert(n == v * sh) by (nonlinear_arith)
            requires
                vj == v * exp2(j as nat),
                sh == exp2((sig + j) as nat),
                exp2((sig + j) as nat) == exp2(j as nat) * exp2(sig as nat),
                top == exp2(sig as nat),
                n == vj * top,
        ;
        assert(n < d * top2) by (nonlinear_arith)
            requires
                vj < 2 * d,
                n == vj * top,
                top2 == 2 * top,
                top > 0,
        ;
        assert(ratio_exp(v as nat, d as nat) == -(j as int));
        assert((sig - ratio_exp(v as nat, d as nat)) as nat == (sig + j) as nat);
        let m = rne_exec(n, d);
        assert(m <= top2) by (nonlinear_arith)
            requires
                m <= n as int / d as int + 1,
                n < d * top2,
                d > 0,
        ;
        proof {
            lemma_exp2_pos((sig + j) as nat);
        }
        rne_exec(m * ten_p, sh)
    } else {
        let ghost kk = ratio_log2(v as nat, d as nat);
        let mut dk: u128 = d;
        let mut k: u32 = 0;
        assert(exp2(0) == 1);
        while v >= 2 * dk
            invariant
                0 < d <= dk <= v <= 0x100_0000_0000_0000_0000,
                dk == d * exp2(k as nat),
                kk == k + ratio_log2(v as nat, dk as nat),
                exp2(k as nat) <= dk,
                k <= 72,
            decreases v - dk,
        {
            proof {
                assert(exp2((k + 1) as nat) == 2 * exp2(k as nat));
                assert(d * exp2((k + 1) as nat) == 2 * (d * exp2(k as nat))) by (nonlinear_arith)
                    requires
                        exp2((k + 1) as nat) == 2 * exp2(k as nat),
                ;
                lemma_exp2_table();
                assert(exp2((k + 1) as nat) <= 2 * dk);
                if k + 1 > 72 {
                    lemma_exp2_mono(73, (k + 1) as nat);
                }
            }
            dk = 2 * dk;
            k = k + 1;
        }
        proof {
            lemma_ratio_log2(v as nat, d as nat);
            assert(k == kk);
        }
        if k <= sig {
            let sh = exp2_exec(sig - k);
            proof {
                lemma_exp2_pos((sig - k) as nat);
                lemma_exp2_add(k as nat, (sig - k) as nat);
                lemma_exp2_mono((sig - k) as nat, 52);
            }
            assert(v * sh < d * top2) by (nonlinear_arith)
                requires
                    v < 2 * dk,
                    dk == d * exp2(k as nat),
                    sh == exp2((sig - k) as nat),
                    exp2(k as nat) * exp2((sig - k) as nat) == top,
                    top2 == 2 * top,
                    sh > 0,
            ;
            assert(d * top2 <= 0x2_0000_0000_0000_0000 * 0x20_0000_0000_0000) by (nonlinear_arith)
                requires
                    d <= 0x2_0000_0000_0000_0000,
                    top2 <= 0x20_0000_0000_0000,
            ;
            let m = rne_exec(v * sh, d);
            assert(m <= top2) by (nonlinear_arith)
                requires
                    m <= (v * sh) as int / d as int + 1,
                    v * sh < d * top2,
                    d > 0,
            ;
            rne_exec(m * ten_p, sh)
        } else {
            let e = exp2_exec(k - sig);
            proof {
                lemma_exp2_pos((k - sig) as nat);
                lemma_exp2_mono((k - sig) as nat, 72);
                lemma_exp2_mono((k - sig) as nat, k as nat);
            }
            assert(d * e <= dk) by (nonlinear_arith)
                requires
                    dk == d * exp2(k as nat),
                    e == exp2((k - sig) as nat),
                    e <= exp2(k as nat),
                    d > 0,
            ;
            assert(d * e > 0) by (nonlinear_arith)
                requires
                    d > 0,
                    e > 0,
            ;
            let m = rne_exec(v, d * e);
            assert(m * e <= v + e) by (nonlinear_arith)
                requires
                    m <= (v as int) / ((d * e) as int) + 1,
                    d >= 1,
                    e > 0,
            ;
            m * e * ten_p
        }
    }
}

/// The text of a scaled decimal `x` with `p` digits after the point.
pub open spec fn fixed_text(x: nat, p: nat) -> Seq<char> {
    if p == 0 {
        decimal(x)
    } else if p == 1 {
        decimal(x / 10) + seq!['.', digit_char(x % 10)]
    } else {
        decimal(x / 100) + seq!['.', digit_char((x / 10) % 10), digit_char(x % 10)]
    }
}

/// Appends the scaled decimal `x` with `p` digits after the point.
pub fn push_fixed(s: &mut String, x: u128, p: u32)
    requires
        p <= 2,
    ensures
        final(s)@ == old(s)@ + fixed_text(x as nat, p as nat),
{
    if p == 0 {
        push_decimal(s, x);
    } else if p == 1 {
        push_decimal(s, x / 10);
        s.push('.');
        s.push(digit((x % 10) as u64));
    } else {
        push_decimal(s, x / 100);
        s.push('.');
        s.push(digit(((x / 10) % 10) as u64));
        s.push(digit((x % 10) as u64));
    }
    proof {
        assert(final(s)@ =~= old(s)@ + fixed_text(x as nat, p as nat));
    }
}

} // verus!
