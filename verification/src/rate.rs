//! Sample rates as fractions, quantised to a configurable resolution.
//!
//! A rate is written the way a person says it: 0.1 is a tenth, 1 is all of it.
//! A value above 1 is the older spelling, basis points out of ten thousand. The
//! written number comes in as the bits of an IEEE 754 double, and the rate is
//! what double arithmetic makes of it, computed here on integers.

use vstd::arithmetic::div_mod::{
    lemma_basic_div, lemma_div_denominator, lemma_div_is_ordered, lemma_div_multiples_vanish,
};
use vstd::arithmetic::power2::{
    lemma2_to64, lemma2_to64_rest, lemma_pow2_adds, lemma_pow2_pos, lemma_pow2_strictly_increases,
    lemma_pow2_unfold, pow2,
};
use vstd::prelude::*;

verus! {

/// Faces on the sampling die unless a setting says otherwise.
pub const DEFAULT_DENOMINATOR: u32 = 1000;

pub const MIN_DENOMINATOR: u32 = 10;

pub const MAX_DENOMINATOR: u32 = 1000000;

/// The bits of 1.0: the one value that each spelling reads differently.
pub const AMBIGUOUS_ONE: u64 = 0x3FF0_0000_0000_0000;

/// The bits of infinity, and the first that are not a finite number.
pub const INFINITY: u64 = 0x7FF0_0000_0000_0000;

/// How a written rate was understood.
#[derive(Clone, Copy, Debug, PartialEq, Eq, Structural)]
pub enum Spelling {
    Fraction,
    LegacyBasisPoints,
}

/// A resolved rate: `parts` faces out of `denominator` sample.
#[derive(Clone, Copy, Debug, PartialEq, Eq, Structural)]
pub struct SampleRate {
    pub parts: u32,
    pub denominator: u32,
    pub spelling: Spelling,
}

/// Whether bits are those of a finite double above zero.
pub open spec fn positive_finite(bits: u64) -> bool {
    0 < bits < INFINITY
}

impl SampleRate {
    /// Never samples.
    pub fn off(denominator: u32) -> (r: SampleRate)
        ensures
            r == (SampleRate { parts: 0, denominator, spelling: Spelling::Fraction }),
    {
        SampleRate { parts: 0, denominator, spelling: Spelling::Fraction }
    }

    /// Whether a rate above zero was quantised away to nothing.
    pub fn rounded_to_nothing(self, written: u64) -> (r: bool)
        ensures
            r == (self.parts == 0 && (positive_finite(written) || written == INFINITY)),
    {
        self.parts == 0 && 0 < written && written <= INFINITY
    }

    /// The fraction that is actually sampled, as the bits of a double.
    pub fn effective_fraction(self) -> (r: u64)
        ensures
            r == if self.denominator == 0 || self.parts == 0 {
                0
            } else {
                quotient_bits(self.parts as nat, self.denominator as nat)
            },
    {
        if self.denominator == 0 || self.parts == 0 {
            return 0;
        }
        quotient(self.parts, self.denominator)
    }
}

/// How far `n * 2^s` is from having 53 bits before the division by `d`.
pub open spec fn shortfall(n: nat, d: nat, s: nat) -> nat {
    if n * pow2(s) >= d * 0x10_0000_0000_0000 {
        0
    } else {
        (d * 0x10_0000_0000_0000 - n * pow2(s)) as nat
    }
}

/// How many binary places `n / d` needs to have 53 significant bits, from `s` on.
pub open spec fn places_from(n: nat, d: nat, s: nat) -> nat
    decreases shortfall(n, d, s) when n > 0 via places_decrease
{
    if n * pow2(s) >= d * 0x10_0000_0000_0000 {
        s
    } else {
        places_from(n, d, s + 1)
    }
}

#[via_fn]
proof fn places_decrease(n: nat, d: nat, s: nat) {
    lemma_pow2_unfold(s + 1);
    lemma_pow2_pos(s);
    let p = pow2(s) as int;
    assert(n * (2 * p) > n * p) by (nonlinear_arith)
        requires
            n > 0,
            p > 0,
    ;
}

/// The bits of the double nearest to `n / d`, both above zero and below 2^32.
pub open spec fn quotient_bits(n: nat, d: nat) -> int {
    let s = places_from(n, d, 0);
    (1074 - s) * 0x10_0000_0000_0000 + nearest_even(n * pow2(s), d)
}

/// A resolution in the usable band. Zero stands for the default.
pub open spec fn clamped(written: u32) -> u32 {
    if written == 0 {
        DEFAULT_DENOMINATOR
    } else if written < MIN_DENOMINATOR {
        MIN_DENOMINATOR
    } else if written > MAX_DENOMINATOR {
        MAX_DENOMINATOR
    } else {
        written
    }
}

/// Clamp a resolution into the usable band.
pub fn clamp_denominator(written: u32) -> (r: u32)
    ensures
        r == clamped(written),
{
    if written == 0 {
        DEFAULT_DENOMINATOR
    } else if written < MIN_DENOMINATOR {
        MIN_DENOMINATOR
    } else if written > MAX_DENOMINATOR {
        MAX_DENOMINATOR
    } else {
        written
    }
}

/// A number above zero: `mantissa / 2^scale`.
pub struct Dyadic {
    pub mantissa: nat,
    pub scale: int,
}

/// The number that the bits of a positive finite double stand for.
pub open spec fn value_of_bits(bits: u64) -> Dyadic {
    let exponent = bits as int / 0x10_0000_0000_0000;
    let fraction = (bits as int % 0x10_0000_0000_0000) as nat;
    if exponent == 0 {
        Dyadic { mantissa: fraction, scale: 1074 }
    } else {
        Dyadic { mantissa: fraction + 0x10_0000_0000_0000, scale: 1075 - exponent }
    }
}

/// The integer nearest to `n / d`, ties to the even one.
pub open spec fn nearest_even(n: nat, d: nat) -> nat {
    let q = n / d;
    let r = n % d;
    if 2 * r > d || (2 * r == d && q % 2 == 1) {
        q + 1
    } else {
        q
    }
}

/// How many low bits a number must lose to have at most 53.
pub open spec fn excess(n: nat) -> nat
    decreases n,
{
    if n < 0x20_0000_0000_0000 {
        0
    } else {
        1 + excess(n / 2)
    }
}

/// The double nearest to a number times an integer.
pub open spec fn times(x: Dyadic, d: nat) -> Dyadic {
    let n = x.mantissa * d;
    let s = excess(n);
    Dyadic { mantissa: nearest_even(n, pow2(s)), scale: x.scale - s }
}

/// The double nearest to a ten-thousandth of a number whose mantissa has 53 bits.
/// Fourteen more bits leave a quotient of 53 or 54.
pub open spec fn ten_thousandth(x: Dyadic) -> Dyadic {
    let n = x.mantissa * 16384;
    if n / 10000 >= 0x20_0000_0000_0000 {
        Dyadic { mantissa: nearest_even(n, 20000), scale: x.scale + 13 }
    } else {
        Dyadic { mantissa: nearest_even(n, 10000), scale: x.scale + 14 }
    }
}

/// The integer nearest to a number, ties away from zero.
pub open spec fn nearest_away(x: Dyadic) -> nat {
    if x.scale <= 0 {
        x.mantissa * pow2((-x.scale) as nat)
    } else {
        ((2 * x.mantissa + pow2(x.scale as nat)) / (2 * pow2(x.scale as nat))) as nat
    }
}

/// Whether a number is at least one.
pub open spec fn at_least_one(x: Dyadic) -> bool {
    x.scale <= 0 && x.mantissa > 0 || x.scale > 0 && x.mantissa >= pow2(x.scale as nat)
}

/// The faces that a fraction takes of a die, at most all of them.
pub open spec fn faces(x: Dyadic, denominator: nat) -> nat {
    let n = nearest_away(times(x, denominator));
    if n >= denominator {
        denominator
    } else {
        n
    }
}

/// The rate that a written number comes to.
pub open spec fn resolved(written: u64, denominator: u32) -> SampleRate {
    let d = clamped(denominator);
    if !positive_finite(written) {
        SampleRate { parts: 0, denominator: d, spelling: Spelling::Fraction }
    } else if written <= AMBIGUOUS_ONE {
        SampleRate {
            parts: faces(value_of_bits(written), d as nat) as u32,
            denominator: d,
            spelling: Spelling::Fraction,
        }
    } else {
        let fraction = ten_thousandth(value_of_bits(written));
        SampleRate {
            parts: if at_least_one(fraction) {
                d
            } else {
                faces(fraction, d as nat) as u32
            },
            denominator: d,
            spelling: Spelling::LegacyBasisPoints,
        }
    }
}

proof fn lemma_pow2_bounds(n: nat)
    ensures
        pow2(n) >= 1,
        n <= 100 ==> pow2(n) <= 0x10_0000_0000_0000_0000_0000_0000,
        n >= 61 ==> pow2(n) >= 0x2000_0000_0000_0000,
        n <= 53 ==> pow2(n) <= 0x20_0000_0000_0000,
{
    lemma2_to64();
    lemma2_to64_rest();
    lemma_pow2_pos(n);
    lemma_pow2_adds(64, 36);
    if n < 100 {
        lemma_pow2_strictly_increases(n, 100);
    }
    if n > 61 {
        lemma_pow2_strictly_increases(61, n);
    }
    if n < 53 {
        lemma_pow2_strictly_increases(n, 53);
    }
}

fn two_to_the(n: u32) -> (r: u128)
    requires
        n <= 100,
    ensures
        r == pow2(n as nat),
{
    let mut r: u128 = 1;
    let mut i: u32 = 0;
    proof {
        lemma2_to64();
    }
    while i < n
        invariant
            i <= n <= 100,
            r == pow2(i as nat),
        decreases n - i,
    {
        proof {
            lemma_pow2_unfold((i + 1) as nat);
            lemma_pow2_bounds((i + 1) as nat);
        }
        r = r * 2;
        i = i + 1;
    }
    r
}

fn round_even(n: u128, d: u128) -> (r: u128)
    requires
        0 < d <= 0x10_0000_0000_0000_0000_0000_0000,
        n <= 0x10_0000_0000_0000_0000_0000_0000,
    ensures
        r == nearest_even(n as nat, d as nat),
        r <= n / d + 1,
{
    let q: u128 = n / d;
    let rest: u128 = n % d;
    if 2 * rest > d || (2 * rest == d && q % 2 == 1) {
        q + 1
    } else {
        q
    }
}

/// A number above zero, as machine integers.
struct Number {
    mantissa: u128,
    scale: i32,
}

impl View for Number {
    type V = Dyadic;

    closed spec fn view(&self) -> Dyadic {
        Dyadic { mantissa: self.mantissa as nat, scale: self.scale as int }
    }
}

proof fn lemma_halved(n: nat, s: nat)
    ensures
        (n / pow2(s)) / 2 == n / pow2(s + 1),
{
    lemma_pow2_pos(s);
    lemma_pow2_unfold(s + 1);
    lemma_div_denominator(n as int, pow2(s) as int, 2);
    assert(pow2(s) * 2 == pow2(s + 1));
}

fn multiply(x: &Number, d: u32) -> (r: Number)
    requires
        x.mantissa <= 0x20_0000_0000_0000,
        30 <= x.scale <= 2000,
        d <= MAX_DENOMINATOR,
    ensures
        r@ == times(x@, d as nat),
        r.mantissa <= 0x20_0000_0000_0000,
        x.scale - 22 <= r.scale <= x.scale,
{
    proof {
        assert(x.mantissa * d <= 0x20_0000_0000_0000 * 1000000) by (nonlinear_arith)
            requires
                x.mantissa <= 0x20_0000_0000_0000,
                d <= 1000000,
        ;
        lemma2_to64();
        lemma2_to64_rest();
        lemma_pow2_adds(64, 11);
    }
    let n: u128 = x.mantissa * (d as u128);
    let mut t: u128 = n;
    let mut s: u32 = 0;
    proof {
        assert(n as nat / pow2(0) == n);
    }
    while t >= 0x20_0000_0000_0000
        invariant
            s <= 22,
            t == n as nat / pow2(s as nat),
            excess(n as nat) == s + excess(t as nat),
            t < pow2((75 - s) as nat),
        decreases t,
    {
        proof {
            lemma_halved(n as nat, s as nat);
            lemma_pow2_unfold((75 - s) as nat);
            if s >= 22 {
                lemma_pow2_bounds((75 - s) as nat);
            }
        }
        t = t / 2;
        s = s + 1;
    }
    proof {
        lemma_pow2_bounds(s as nat);
    }
    let p = two_to_the(s);
    let q = round_even(n, p);
    Number { mantissa: q, scale: x.scale - (s as i32) }
}

fn round_away(x: &Number) -> (r: u128)
    requires
        x.mantissa <= 0x20_0000_0000_0000,
        0 < x.scale <= 2000,
    ensures
        r == nearest_away(x@),
{
    if x.scale > 60 {
        proof {
            lemma_pow2_bounds(x.scale as nat);
            let p = pow2(x.scale as nat) as int;
            let m = x.mantissa as int;
            lemma_basic_div(2 * m + p, 2 * p);
        }
        return 0;
    }
    proof {
        lemma_pow2_bounds(x.scale as nat);
    }
    let p = two_to_the(x.scale as u32);
    (2 * x.mantissa + p) / (2 * p)
}

fn decode(bits: u64) -> (r: Number)
    requires
        positive_finite(bits),
    ensures
        r@ == value_of_bits(bits),
        r.mantissa < 0x20_0000_0000_0000,
        -971 <= r.scale <= 1074,
        bits <= AMBIGUOUS_ONE ==> r.scale >= 52,
        bits > AMBIGUOUS_ONE ==> r.mantissa >= 0x10_0000_0000_0000 && r.scale <= 52,
{
    let exponent: u64 = bits / 0x10_0000_0000_0000;
    let fraction: u64 = bits % 0x10_0000_0000_0000;
    if exponent == 0 {
        Number { mantissa: fraction as u128, scale: 1074 }
    } else {
        Number {
            mantissa: (fraction + 0x10_0000_0000_0000) as u128,
            scale: 1075 - (exponent as i32),
        }
    }
}

fn take_faces(x: &Number, denominator: u32) -> (r: u32)
    requires
        x.mantissa <= 0x20_0000_0000_0000,
        30 <= x.scale <= 2000,
        denominator <= MAX_DENOMINATOR,
    ensures
        r == faces(x@, denominator as nat),
        r <= denominator,
{
    let product = multiply(x, denominator);
    let n = round_away(&product);
    if n >= denominator as u128 {
        denominator
    } else {
        n as u32
    }
}

fn divide(x: &Number) -> (r: Number)
    requires
        0x10_0000_0000_0000 <= x.mantissa < 0x20_0000_0000_0000,
        -971 <= x.scale <= 52,
    ensures
        r@ == ten_thousandth(x@),
        r.mantissa <= 0x20_0000_0000_0000,
        r.mantissa > 0,
        x.scale + 13 <= r.scale <= x.scale + 14,
{
    let n: u128 = x.mantissa * 16384;
    if n / 10000 >= 0x20_0000_0000_0000 {
        Number { mantissa: round_even(n, 20000), scale: x.scale + 13 }
    } else {
        Number { mantissa: round_even(n, 10000), scale: x.scale + 14 }
    }
}

fn quotient(n: u32, d: u32) -> (r: u64)
    requires
        n > 0,
        d > 0,
    ensures
        r == quotient_bits(n as nat, d as nat),
{
    let limit: u128 = (d as u128) * 0x10_0000_0000_0000;
    let mut scaled: u128 = n as u128;
    let mut s: u32 = 0;
    proof {
        lemma2_to64();
    }
    while scaled < limit
        invariant
            n > 0,
            d > 0,
            limit == d * 0x10_0000_0000_0000,
            s <= 84,
            scaled == n as nat * pow2(s as nat),
            scaled < 2 * limit,
            places_from(n as nat, d as nat, s as nat) == places_from(n as nat, d as nat, 0),
        decreases 85 - s,
    {
        proof {
            lemma_pow2_unfold((s + 1) as nat);
            lemma_pow2_pos(s as nat);
            let p = pow2(s as nat) as int;
            assert(n * (2 * p) == 2 * (n * p)) by (nonlinear_arith);
            if s >= 84 {
                lemma_pow2_bounds(84);
                lemma2_to64();
                lemma2_to64_rest();
                lemma_pow2_adds(64, 20);
                assert(n * p >= p) by (nonlinear_arith)
                    requires
                        n >= 1,
                        p >= 0,
                ;
            }
        }
        scaled = scaled * 2;
        s = s + 1;
    }
    let q = round_even(scaled, d as u128);
    proof {
        assert(scaled as nat / d as nat <= 0x20_0000_0000_0000) by {
            lemma_div_is_ordered(scaled as int, 2 * limit as int, d as int);
            lemma_div_multiples_vanish(0x20_0000_0000_0000int, d as int);
        }
    }
    ((1074 - s) as u64) * 0x10_0000_0000_0000 + (q as u64)
}

/// Turn a written rate into die faces. A value that is not finite, or not above
/// zero, is off.
pub fn resolve(written: u64, denominator: u32) -> (r: SampleRate)
    ensures
        r == resolved(written, denominator),
{
    let d = clamp_denominator(denominator);
    if written == 0 || written >= INFINITY {
        return SampleRate::off(d);
    }
    let x = decode(written);
    if written <= AMBIGUOUS_ONE {
        return SampleRate { parts: take_faces(&x, d), denominator: d, spelling: Spelling::Fraction };
    }
    let fraction = divide(&x);
    let whole = if fraction.scale <= 0 {
        true
    } else {
        fraction.mantissa >= two_to_the(fraction.scale as u32)
    };
    let parts: u32 = if whole {
        d
    } else {
        proof {
            if fraction.scale <= 30 {
                lemma2_to64();
                lemma2_to64_rest();
                if fraction.scale < 30 {
                    lemma_pow2_strictly_increases(fraction.scale as nat, 30);
                }
                assert(fraction.mantissa >= 0x1000_0000_0000);
            }
        }
        take_faces(&fraction, d)
    };
    SampleRate { parts, denominator: d, spelling: Spelling::LegacyBasisPoints }
}

/// No rate samples more than everything, and every resolution is in the band.
pub proof fn law_rates_are_within_their_resolution(written: u64, denominator: u32)
    ensures
        resolved(written, denominator).parts <= resolved(written, denominator).denominator,
        MIN_DENOMINATOR <= resolved(written, denominator).denominator <= MAX_DENOMINATOR,
{
}

/// Zero, negative numbers, infinities and what is not a number are all off.
pub proof fn law_nonsense_is_off(written: u64, denominator: u32)
    requires
        written == 0 || written >= INFINITY,
    ensures
        resolved(written, denominator).parts == 0,
{
}

/// A resolution of zero is the default of a thousand, and any other is kept between
/// ten and a million.
pub proof fn law_resolutions_are_kept_in_their_band(written: u32, r: u32)
    requires
        call_ensures(clamp_denominator, (written,), r),
    ensures
        written == 0 ==> r == 1000,
        0 < written < 10 ==> r == 10,
        10 <= written <= 1000000 ==> r == written,
        written > 1000000 ==> r == 1000000,
{
}

/// A rate is off where the written number is zero, negative, infinite or none; up to
/// one it is a fraction, and above it basis points. Its resolution is the clamped
/// one.
pub proof fn law_how_a_written_rate_is_understood(
    written: u64,
    denominator: u32,
    r: SampleRate,
    d: u32,
    none: SampleRate,
    lost: bool,
)
    requires
        call_ensures(resolve, (written, denominator), r),
        call_ensures(clamp_denominator, (denominator,), d),
        call_ensures(SampleRate::off, (d,), none),
        call_ensures(SampleRate::rounded_to_nothing, (r, written), lost),
    ensures
        r.denominator == d,
        none.parts == 0 && none.denominator == d && none.spelling is Fraction,
        written == 0 || written >= 0x7FF0_0000_0000_0000 ==> r == none,
        0 < written <= 0x3FF0_0000_0000_0000 ==> r.spelling is Fraction,
        0x3FF0_0000_0000_0000 < written < 0x7FF0_0000_0000_0000 ==> r.spelling is LegacyBasisPoints,
        r.parts <= d,
        lost <==> r.parts == 0 && 0 < written <= 0x7FF0_0000_0000_0000,
{
}

proof fn lemma_nearest_even_error(n: nat, d: nat)
    requires
        d > 0,
    ensures
        2 * (nearest_even(n, d) * d - n) <= d,
        2 * (n - nearest_even(n, d) * d) <= d,
        nearest_even(n, d) >= n / d,
        nearest_even(n, d) <= n / d + 1,
{
    let q = n / d;
    let r = n % d;
    vstd::arithmetic::div_mod::lemma_fundamental_div_mod(n as int, d as int);
    assert((q + 1) * d == q * d + d) by (nonlinear_arith);
    assert(d * q == q * d) by (nonlinear_arith);
}

proof fn lemma_excess_small(n: nat, k: nat)
    requires
        n < 0x20_0000_0000_0000 * pow2(k),
    ensures
        excess(n) <= k,
    decreases k,
{
    lemma2_to64();
    if k > 0 && n >= 0x20_0000_0000_0000 {
        lemma_pow2_unfold(k);
        lemma_excess_small(n / 2, (k - 1) as nat);
    }
}

/// What the die's faces are off by, at most: half a face, and what a double rounds.
pub open spec fn near(parts: nat, m: nat, s: nat, d: nat) -> bool {
    &&& 2 * (parts * pow2(s) - m * d) <= pow2(s) + 0x10_0000
    &&& 2 * (m * d - parts * pow2(s)) <= pow2(s) + 0x10_0000
}

proof fn lemma_faces_are_near(x: Dyadic, d: nat)
    requires
        x.scale >= 30,
        x.mantissa <= 0x20_0000_0000_0000,
        x.mantissa <= pow2(x.scale as nat),
        0 < d <= 1000000,
    ensures
        near(faces(x, d), x.mantissa, x.scale as nat, d),
{
    let m = x.mantissa;
    let s = x.scale as nat;
    let n = m * d;
    let t = excess(n);
    lemma2_to64();
    assert(n < 0x20_0000_0000_0000 * 0x10_0000) by (nonlinear_arith)
        requires
            n == m * d,
            m <= 0x20_0000_0000_0000,
            d <= 1000000,
    ;
    lemma_excess_small(n, 20);
    lemma_pow2_bounds(t);
    if t < 20 {
        lemma_pow2_strictly_increases(t, 20);
    }
    let pt = pow2(t);
    assert(pt <= 0x10_0000);
    let q = nearest_even(n, pt);
    lemma_nearest_even_error(n, pt);
    let u = (s - t) as nat;
    let pu = pow2(u);
    lemma_pow2_pos(u);
    lemma_pow2_adds(u, t);
    assert(pu * pt == pow2(s));
    let away = ((2 * q + pu) / (2 * pu)) as nat;
    vstd::arithmetic::div_mod::lemma_fundamental_div_mod((2 * q + pu) as int, (2 * pu) as int);
    let rest = ((2 * q + pu) % (2 * pu)) as int;
    assert(0 <= rest < 2 * pu);
    assert((2 * pu) * away == 2 * (away * pu)) by (nonlinear_arith);
    assert(2 * (away * pu) + rest == 2 * q + pu);
    assert(away * pow2(s) == (away * pu) * pt) by (nonlinear_arith)
        requires
            pow2(s) == pu * pt,
    ;
    let lhs = away * pu;
    assert(2 * (lhs * pt) - 2 * (q * pt) <= pu * pt) by (nonlinear_arith)
        requires
            2 * lhs - 2 * q <= pu,
            pt >= 0,
    ;
    assert(2 * (q * pt) - 2 * (lhs * pt) <= pu * pt) by (nonlinear_arith)
        requires
            2 * q - 2 * lhs <= pu,
            pt >= 0,
    ;
    assert(nearest_away(times(x, d)) == away);
    assert(near(away, m, s, d));
    if away >= d {
        assert(d * pow2(s) <= away * pow2(s)) by (nonlinear_arith)
            requires
                d <= away,
        ;
        assert(m * d <= d * pow2(s)) by (nonlinear_arith)
            requires
                m <= pow2(s),
        ;
    }
}

/// Up to one, the faces are the written fraction of all of them, to the nearest:
/// off by no more than half a face and the rounding of one double product. The bits
/// of a double are its exponent, at 52 bits, and its fraction below.
pub proof fn law_a_fraction_gets_its_share_of_the_faces(
    written: u64,
    denominator: u32,
    r: SampleRate,
    exponent: nat,
    fraction: nat,
)
    requires
        call_ensures(resolve, (written, denominator), r),
        0 < written <= 0x3FF0_0000_0000_0000,
        written == exponent * 0x10_0000_0000_0000 + fraction,
        fraction < 0x10_0000_0000_0000,
    ensures
        exponent > 0 ==> near(
            r.parts as nat,
            fraction + 0x10_0000_0000_0000,
            (1075 - exponent) as nat,
            r.denominator as nat,
        ),
        exponent == 0 ==> near(r.parts as nat, fraction, 1074, r.denominator as nat),
        written == 0x3FF0_0000_0000_0000 ==> r.parts == r.denominator,
{
    let x = value_of_bits(written);
    assert(written as int / 0x10_0000_0000_0000 == exponent && written as int % 0x10_0000_0000_0000
        == fraction);
    let s = x.scale as nat;
    lemma2_to64();
    lemma2_to64_rest();
    assert(s >= 52);
    if s > 53 {
        lemma_pow2_strictly_increases(53, s);
    }
    if s == 52 {
        assert(x.mantissa == 0x10_0000_0000_0000);
    }
    lemma_faces_are_near(x, r.denominator as nat);
    if written == 0x3FF0_0000_0000_0000 {
        assert(exponent == 1023 && fraction == 0);
        let p = r.parts as int;
        let d = r.denominator as int;
        assert(p == d) by (nonlinear_arith)
            requires
                2 * (0x10_0000_0000_0000 * d - p * 0x10_0000_0000_0000) <= 0x10_0000_0000_0000
                    + 0x10_0000,
                p <= d,
        ;
    }
}

/// Ten thousand basis points and more are all the faces.
pub proof fn law_ten_thousand_basis_points_are_everything(
    written: u64,
    denominator: u32,
    r: SampleRate,
)
    requires
        call_ensures(resolve, (written, denominator), r),
        0x40C3_8800_0000_0000 <= written < 0x7FF0_0000_0000_0000,
    ensures
        r.parts == r.denominator,
{
    let x = value_of_bits(written);
    let n = x.mantissa * 16384;
    let y = ten_thousandth(x);
    lemma_nearest_even_error(n, 20000);
    lemma_nearest_even_error(n, 10000);
    lemma2_to64();
    lemma2_to64_rest();
    if y.scale > 0 && y.scale < 52 {
        lemma_pow2_strictly_increases(y.scale as nat, 52);
    }
}

/// Below that, the faces are the written number of ten-thousandths of all of them,
/// to the nearest: off by no more than half a face and the rounding of a double
/// quotient and a double product.
pub proof fn law_basis_points_get_their_share_of_the_faces(
    written: u64,
    denominator: u32,
    r: SampleRate,
    exponent: nat,
    fraction: nat,
)
    requires
        call_ensures(resolve, (written, denominator), r),
        0x3FF0_0000_0000_0000 < written < 0x40C3_8800_0000_0000,
        written == exponent * 0x10_0000_0000_0000 + fraction,
        fraction < 0x10_0000_0000_0000,
    ensures
        ({
            let m = fraction + 0x10_0000_0000_0000;
            let p = pow2((1075 - exponent) as nat);
            let exact = m * r.denominator;
            let got = r.parts * 10000 * p;
            &&& 2 * (got - exact) <= 10000 * p + 10000 * 512
            &&& 2 * (exact - got) <= 10000 * p + 10000 * 512
        }),
{
    let x = value_of_bits(written);
    assert(written as int / 0x10_0000_0000_0000 == exponent && written as int % 0x10_0000_0000_0000
        == fraction);
    let m = x.mantissa;
    let s = x.scale as nat;
    assert(39 <= s <= 52);
    let n = m * 16384;
    let y = ten_thousandth(x);
    let big = n / 10000 >= 0x20_0000_0000_0000;
    let k: nat = if big {
        13
    } else {
        14
    };
    let p = pow2(s);
    let pk = pow2(k);
    let ps = pow2((s + k) as nat);
    lemma2_to64();
    lemma2_to64_rest();
    lemma_pow2_adds(s, k);
    lemma_pow2_pos(s);
    assert(ps == p * pk);
    lemma_nearest_even_error(n, 20000);
    lemma_nearest_even_error(n, 10000);
    let w = y.mantissa;
    let d = r.denominator as nat;
    assert(2 * (w * 10000 - m * pk) <= 10000 && 2 * (m * pk - w * 10000) <= 10000);
    assert(w <= 0x20_0000_0000_0000);
    let q = r.parts as nat;
    if at_least_one(y) {
        lemma_whole(m, s, w, k);
        assert(false);
    }
    assert(w <= ps);
    lemma_faces_are_near(y, d);
    assert(q == faces(y, d));
    lemma_share(q, w, m, d, p, pk);
}

proof fn lemma_whole(m: nat, s: nat, w: nat, k: nat)
    requires
        39 <= s <= 52,
        k == 13 || k == 14,
        2 * (w * 10000 - m * pow2(k)) <= 10000,
        0x10_0000_0000_0000 <= m < 0x20_0000_0000_0000,
        s == 39 ==> m < 0x13_8800_0000_0000,
        k == 13 ==> m * 16384 / 10000 >= 0x20_0000_0000_0000,
    ensures
        w < pow2((s + k) as nat),
{
    lemma2_to64();
    lemma2_to64_rest();
    if s + k > 52 && s + k < 64 {
        lemma_pow2_strictly_increases(52, (s + k) as nat);
    }
    if k == 13 {
        assert(m * pow2(k) == m * 8192);
    } else {
        assert(m * pow2(k) == m * 16384);
    }
    if s >= 40 {
        if s > 40 {
            lemma_pow2_strictly_increases((40 + k) as nat, (s + k) as nat);
        }
        assert(pow2((40 + k) as nat) >= 0x20_0000_0000_0000);
        assert(w * 10000 <= 0x20_0000_0000_0000 * 16384 + 5000);
        if k == 13 {
            assert(w * 10000 <= 0x20_0000_0000_0000 * 8192 + 5000);
        }
    }
}

proof fn lemma_share(q: nat, w: nat, m: nat, d: nat, p: nat, pk: nat)
    requires
        pk == 8192 || pk == 16384,
        0 < d <= 1000000,
        2 * (w * 10000 - m * pk) <= 10000,
        2 * (m * pk - w * 10000) <= 10000,
        2 * (q * (p * pk) - w * d) <= p * pk + 0x10_0000,
        2 * (w * d - q * (p * pk)) <= p * pk + 0x10_0000,
    ensures
        2 * (q * 10000 * p - m * d) <= 10000 * p + 10000 * 512,
        2 * (m * d - q * 10000 * p) <= 10000 * p + 10000 * 512,
{
    let a = q * p;
    let b = m * d;
    let c = w * d;
    assert(q * (p * pk) == a * pk) by (nonlinear_arith)
        requires
            a == q * p,
    ;
    assert(q * 10000 * p == 10000 * a) by (nonlinear_arith)
        requires
            a == q * p,
    ;
    assert(2 * (10000 * c - b * pk) <= 10000 * d) by (nonlinear_arith)
        requires
            2 * (w * 10000 - m * pk) <= 10000,
            b == m * d,
            c == w * d,
            d > 0,
    ;
    assert(2 * (b * pk - 10000 * c) <= 10000 * d) by (nonlinear_arith)
        requires
            2 * (m * pk - w * 10000) <= 10000,
            b == m * d,
            c == w * d,
            d > 0,
    ;
}

proof fn lemma_places(n: nat, d: nat, s: nat)
    requires
        n > 0,
    ensures
        ({
            let p = places_from(n, d, s);
            &&& p >= s
            &&& n * pow2(p) >= d * 0x10_0000_0000_0000
            &&& p > s ==> n * pow2((p - 1) as nat) < d * 0x10_0000_0000_0000
        }),
    decreases shortfall(n, d, s),
{
    if n * pow2(s) < d * 0x10_0000_0000_0000 {
        lemma_pow2_unfold(s + 1);
        lemma_pow2_pos(s);
        let p = pow2(s) as int;
        assert(n * (2 * p) > n * p) by (nonlinear_arith)
            requires
                n > 0,
                p > 0,
        ;
        lemma_places(n, d, s + 1);
    }
}

/// What is actually sampled is the double nearest to faces over faces: the number
/// that its bits stand for differs from the quotient by no more than half its last
/// place. No faces are zero.
pub proof fn law_what_is_sampled_is_the_nearest_double(
    rate: SampleRate,
    r: u64,
    exponent: nat,
    fraction: nat,
)
    requires
        call_ensures(SampleRate::effective_fraction, (rate,), r),
        r == exponent * 0x10_0000_0000_0000 + fraction,
        fraction < 0x10_0000_0000_0000,
    ensures
        rate.parts == 0 || rate.denominator == 0 ==> r == 0,
        rate.parts > 0 && rate.denominator > 0 ==> {
            let m = fraction + 0x10_0000_0000_0000;
            let p = pow2((1075 - exponent) as nat);
            &&& exponent <= 1075
            &&& 2 * (m * rate.denominator - rate.parts * p) <= rate.denominator
            &&& 2 * (rate.parts * p - m * rate.denominator) <= rate.denominator
        },
{
    if rate.parts > 0 && rate.denominator > 0 {
        let n = rate.parts as nat;
        let d = rate.denominator as nat;
        let s = places_from(n, d, 0);
        let top: nat = 0x10_0000_0000_0000;
        lemma_places(n, d, 0);
        lemma2_to64();
        lemma_pow2_pos(s);
        assert(s > 0) by {
            if s == 0 {
                assert(n * 1 >= d * top);
            }
        }
        lemma_pow2_unfold(s);
        let half = pow2((s - 1) as nat);
        let scaled = n * pow2(s);
        assert(scaled == 2 * (n * half)) by (nonlinear_arith)
            requires
                scaled == n * pow2(s),
                pow2(s) == 2 * half,
        ;
        let q = nearest_even(scaled, d);
        lemma_nearest_even_error(scaled, d);
        vstd::arithmetic::div_mod::lemma_fundamental_div_mod(scaled as int, d as int);
        let whole = scaled / d;
        assert(whole >= top) by (nonlinear_arith)
            requires
                scaled >= d * top,
                scaled == d * whole + scaled % d,
                scaled % d < d,
                d > 0,
        ;
        assert(whole < 2 * top) by (nonlinear_arith)
            requires
                scaled < 2 * (d * top),
                scaled == d * whole + scaled % d,
                scaled % d >= 0,
                d > 0,
        ;
        assert(r == (1074 - s) * top + q);
        if q < 2 * top {
            assert(exponent == 1075 - s && fraction == q - top);
        } else {
            assert(q == 2 * top);
            assert(exponent == 1076 - s && fraction == 0);
            assert(n * half * 2 == scaled);
            assert(q * d == 2 * (top * d)) by (nonlinear_arith)
                requires
                    q == 2 * top,
            ;
        }
    }
}

} // verus!
