//! Single-precision control values, held by their bit patterns.

use vstd::arithmetic::div_mod::lemma_basic_div;
use vstd::arithmetic::div_mod::lemma_div_denominator;
use vstd::arithmetic::div_mod::lemma_div_multiples_vanish;
use vstd::arithmetic::div_mod::lemma_div_pos_is_pos;
use vstd::arithmetic::div_mod::lemma_fundamental_div_mod;
use vstd::arithmetic::div_mod::lemma_fundamental_div_mod_converse;
use vstd::arithmetic::div_mod::lemma_mod_bound;
use vstd::arithmetic::power2::lemma2_to64;
use vstd::arithmetic::power2::lemma_pow2_adds;
use vstd::arithmetic::power2::lemma_pow2_pos;
use vstd::arithmetic::power2::lemma_pow2_strictly_increases;
use vstd::arithmetic::power2::lemma_pow2_unfold;
use vstd::arithmetic::power2::pow2;
use vstd::prelude::*;

verus! {

/// Number of fraction patterns per exponent.
pub const FRACTIONS: u32 = 0x80_0000;

/// The sign bit.
pub const SIGN: u32 = 0x8000_0000;

/// The exponent field that marks infinities and values that are not numbers.
pub const SPECIAL: u32 = 255;

/// Bit pattern of one.
pub const ONE: u32 = 0x3f80_0000;

/// Bit pattern of one half.
pub const HALF: u32 = 0x3f00_0000;

/// Bit pattern of one hundred.
pub const HUNDRED: u32 = 0x42c8_0000;

/// A value in the IEEE 754 binary32 format, held by its bit pattern.
///
/// Derived equality compares bit patterns; [`Single::equals`] compares numbers.
#[derive(Clone, Copy, Debug, PartialEq, Eq, Structural)]
pub struct Single {
    pub bits: u32,
}

/// The exponent field of a bit pattern.
pub open spec fn exponent_of(bits: u32) -> nat {
    ((bits as nat) / (FRACTIONS as nat)) % 256
}

/// The fraction field of a bit pattern.
pub open spec fn fraction_of(bits: u32) -> nat {
    (bits as nat) % (FRACTIONS as nat)
}

/// The absolute value of a number, counted in units of two to the minus 149, the smallest
/// positive number of the format. An infinity counts as the value its fields would denote,
/// which is above every finite one.
pub open spec fn magnitude_of(bits: u32) -> nat {
    if exponent_of(bits) == 0 {
        fraction_of(bits)
    } else {
        (FRACTIONS as nat + fraction_of(bits)) * pow2((exponent_of(bits) - 1) as nat)
    }
}

/// The number of units in one.
pub open spec fn unit() -> nat {
    pow2(149)
}

impl Single {
    /// Whether the pattern denotes no number.
    pub open spec fn is_nan(self) -> bool {
        exponent_of(self.bits) == SPECIAL && fraction_of(self.bits) != 0
    }

    /// The denoted number in units of two to the minus 149.
    pub open spec fn units(self) -> int {
        if self.bits >= SIGN {
            -(magnitude_of(self.bits) as int)
        } else {
            magnitude_of(self.bits) as int
        }
    }

    /// Whether the pattern denotes the integer `v`.
    pub open spec fn denotes(self, v: int) -> bool {
        !self.is_nan() && self.units() == v * unit()
    }

    /// Equality of numbers: both zeros are equal, and nothing equals a non-number.
    pub open spec fn same_number(self, other: Single) -> bool {
        !self.is_nan() && !other.is_nan() && self.units() == other.units()
    }

    /// Order of numbers: a non-number is above and below nothing.
    pub open spec fn not_below(self, other: Single) -> bool {
        !self.is_nan() && !other.is_nan() && self.units() >= other.units()
    }

    /// Strict order of numbers.
    pub open spec fn is_below(self, other: Single) -> bool {
        !self.is_nan() && !other.is_nan() && self.units() < other.units()
    }

    /// The integer part, held to the range of `usize`; zero for a negative value or a
    /// non-number.
    pub open spec fn whole(self) -> int {
        if self.is_nan() || self.units() < 0 {
            0
        } else if self.units() / (unit() as int) > usize::MAX {
            usize::MAX as int
        } else {
            self.units() / (unit() as int)
        }
    }

    /// The value with the given bit pattern.
    pub fn from_bits(bits: u32) -> (v: Single)
        ensures
            v.bits == bits,
    {
        Single { bits }
    }

    /// The number nearest to an unsigned integer, as a cast from `u32` has it.
    pub fn from_u32(n: u32) -> (v: Single)
        ensures
            is_nearest(v, n as int),
    {
        let bits: u32 = nearest_bits(n);
        Single { bits }
    }

    /// The number nearest to an integer, as a cast from `i32` has it.
    pub fn from_i32(n: i32) -> (v: Single)
        ensures
            is_nearest(v, n as int),
    {
        if n >= 0 {
            let bits: u32 = nearest_bits(n as u32);
            Single { bits }
        } else {
            let m: u32 = (-(n as i64)) as u32;
            let bits: u32 = nearest_bits(m);
            let signed: u32 = bits + SIGN;
            proof {
                lemma_sign_is_apart(signed);
                assert(signed % SIGN == bits);
                assert(fraction_of(signed) == fraction_of(bits));
                assert(exponent_of(signed) == exponent_of(bits));
                let k = nearest(m as nat) as int;
                let u = unit() as int;
                assert(-k * u == -(k * u)) by (nonlinear_arith);
            }
            Single { bits: signed }
        }
    }

    /// The exponent field.
    fn exponent(self) -> (e: u32)
        ensures
            e == exponent_of(self.bits),
            e <= 255,
    {
        (self.bits / FRACTIONS) % 256
    }

    /// The fraction field.
    fn fraction(self) -> (f: u32)
        ensures
            f == fraction_of(self.bits),
            f < FRACTIONS,
    {
        self.bits % FRACTIONS
    }

    /// The pattern without its sign.
    fn unsigned(self) -> (u: u32)
        ensures
            u < SIGN,
            u == self.bits % SIGN,
            magnitude_of(u) == magnitude_of(self.bits),
    {
        let u: u32 = self.bits % SIGN;
        proof {
            lemma_sign_is_apart(self.bits);
        }
        u
    }

    /// Whether the pattern denotes no number.
    pub fn not_a_number(self) -> (r: bool)
        ensures
            r == self.is_nan(),
    {
        self.exponent() == SPECIAL && self.fraction() != 0
    }

    /// Whether two values are the same number, as `==` of the format has it.
    pub fn equals(self, other: Single) -> (r: bool)
        ensures
            r == self.same_number(other),
    {
        if self.not_a_number() || other.not_a_number() {
            return false;
        }
        let a: u32 = self.unsigned();
        let b: u32 = other.unsigned();
        proof {
            lemma_magnitude_keeps_order(a, b);
            lemma_magnitude_keeps_order(0, a);
            lemma_magnitude_keeps_order(0, b);
        }
        a == b && (a == 0 || (self.bits >= SIGN) == (other.bits >= SIGN))
    }

    /// Whether a value is at least another, as `>=` of the format has it.
    pub fn at_least(self, other: Single) -> (r: bool)
        ensures
            r == self.not_below(other),
    {
        if self.not_a_number() || other.not_a_number() {
            return false;
        }
        let a: u32 = self.unsigned();
        let b: u32 = other.unsigned();
        proof {
            lemma_magnitude_keeps_order(a, b);
            lemma_magnitude_keeps_order(0, a);
            lemma_magnitude_keeps_order(0, b);
        }
        if self.bits < SIGN {
            if other.bits < SIGN {
                a >= b
            } else {
                true
            }
        } else if other.bits < SIGN {
            a == 0 && b == 0
        } else {
            a <= b
        }
    }

    /// Whether a value is below another, as `<` of the format has it.
    pub fn below(self, other: Single) -> (r: bool)
        ensures
            r == self.is_below(other),
    {
        !self.not_a_number() && !other.not_a_number() && !self.at_least(other)
    }

    /// The integer part, as a cast to `usize` has it: it saturates, and is zero for a
    /// non-number.
    pub fn to_whole(self) -> (w: usize)
        ensures
            w == self.whole(),
    {
        let e: u32 = self.exponent();
        if self.not_a_number() || e < 127 {
            proof {
                if e < 127 {
                    lemma_below_one(self.bits);
                }
            }
            return 0;
        }
        if self.bits >= SIGN {
            proof {
                lemma_pow2_pos((e - 1) as nat);
                let p = pow2((e - 1) as nat);
                let m = FRACTIONS as nat + fraction_of(self.bits);
                assert(m * p > 0) by (nonlinear_arith)
                    requires
                        m > 0,
                        p > 0,
                ;
            }
            return 0;
        }
        let m: u32 = FRACTIONS + self.fraction();
        proof {
            lemma_whole_part(self.bits);
            lemma2_to64();
        }
        if e <= 150 {
            let mut w: u32 = m;
            let mut k: u32 = 0;
            assert(w == (m as nat) / pow2(0));
            while k < 150 - e
                invariant
                    k <= 150 - e,
                    e <= 150,
                    w <= m,
                    w == (m as nat) / pow2(k as nat),
                decreases 150 - e - k,
            {
                proof {
                    lemma_pow2_pos(k as nat);
                    lemma_pow2_unfold((k + 1) as nat);
                    lemma_div_denominator(m as int, pow2(k as nat) as int, 2);
                }
                w = w / 2;
                k = k + 1;
            }
            w as usize
        } else {
            let mut w: usize = m as usize;
            let mut k: u32 = 0;
            while k < e - 150
                invariant
                    k <= e - 150,
                    150 < e <= 255,
                    w == (m as nat) * pow2(k as nat),
                    !self.is_nan(),
                    self.bits < SIGN,
                    self.units() >= 0,
                    self.units() / (unit() as int) == (m as nat) * pow2((e - 150) as nat),
                decreases e - 150 - k,
            {
                proof {
                    let ahead = (e - 150 - k - 1) as nat;
                    lemma_pow2_unfold((k + 1) as nat);
                    lemma_pow2_adds((k + 1) as nat, ahead);
                    lemma_pow2_pos(ahead);
                    let p = pow2(k as nat) as int;
                    let p2 = pow2((k + 1) as nat) as int;
                    assert((m as int) * p2 == 2 * ((m as int) * p)) by (nonlinear_arith)
                        requires
                            p2 == 2 * p,
                    ;
                    let pa = pow2(ahead) as int;
                    assert((m as int) * (p2 * pa) >= (m as int) * p2) by (nonlinear_arith)
                        requires
                            m >= 0,
                            p2 >= 0,
                            pa >= 1,
                    ;
                }
                if w > usize::MAX / 2 {
                    return usize::MAX;
                }
                w = w * 2;
                k = k + 1;
            }
            w
        }
    }
}

/// The spacing of the numbers around `m`: they have 24 significant binary digits.
pub open spec fn spacing(m: nat) -> nat
    decreases m,
{
    if m < 0x100_0000 {
        1
    } else {
        2 * spacing(m / 2)
    }
}

/// The integer nearest to `m` that the format can hold; the one with an even last digit where two
/// are as near.
pub open spec fn nearest(m: nat) -> nat {
    let s = spacing(m);
    if 2 * (m % s) > s || (2 * (m % s) == s && (m / s) % 2 == 1) {
        (m / s + 1) * s
    } else {
        (m / s) * s
    }
}

/// Whether a value is the number nearest to the integer `n`. It is positive where `n` is zero.
pub open spec fn is_nearest(v: Single, n: int) -> bool {
    if n >= 0 {
        v.bits < SIGN && v.denotes(nearest(n as nat) as int)
    } else {
        v.bits >= SIGN && v.denotes(-(nearest((-n) as nat) as int))
    }
}

/// An integer of at most 24 binary digits is held exactly.
pub proof fn law_small_integers_are_exact(m: nat)
    requires
        m < 0x100_0000,
    ensures
        nearest(m) == m,
{
    assert(spacing(m) == 1);
    let s = spacing(m);
    assert((m / s) * s == m && m % s == 0) by (nonlinear_arith)
        requires
            s == 1,
    ;
}

/// One value alone is the number nearest to an integer.
pub proof fn law_nearest_is_unique(v: Single, w: Single, n: int)
    requires
        is_nearest(v, n),
        is_nearest(w, n),
    ensures
        v == w,
{
    let a = (v.bits % SIGN) as u32;
    let b = (w.bits % SIGN) as u32;
    assert(v.units() == w.units());
    assert((v.bits >= SIGN) == (w.bits >= SIGN));
    lemma_sign_is_apart(v.bits);
    lemma_sign_is_apart(w.bits);
    assert(magnitude_of(a) == magnitude_of(b));
    lemma_magnitude_keeps_order(a, b);
}

/// The unsigned pattern of the number nearest to `n`.
fn nearest_bits(n: u32) -> (bits: u32)
    ensures
        bits < SIGN,
        (Single { bits }).denotes(nearest(n as nat) as int),
{
    if n == 0 {
        proof {
            lemma_named_values();
            law_small_integers_are_exact(0);
        }
        return 0;
    }
    let mut q: u64 = n as u64;
    let mut s: u64 = 1;
    let mut j: u32 = 0;
    proof {
        lemma2_to64();
    }
    while q >= 0x100_0000
        invariant
            0 < q,
            q * s <= n < (q + 1) * s,
            s == pow2(j as nat),
            s * spacing(q as nat) == spacing(n as nat),
            j <= 8,
            q < pow2((32 - j) as nat),
            pow2(24) == 0x100_0000,
        decreases q,
    {
        let ghost q0 = q as int;
        let ghost s0 = s as int;
        proof {
            lemma_pow2_unfold((j + 1) as nat);
            lemma_pow2_unfold((32 - j) as nat);
            if j == 8 {
                assert(q < pow2(24));
            }
            let h = q0 / 2;
            assert(h * (2 * s0) <= q0 * s0 && (q0 + 1) * s0 <= (h + 1) * (2 * s0)) by (nonlinear_arith)
                requires
                    2 * h <= q0 <= 2 * h + 1,
                    s0 >= 0,
            ;
            let t = spacing((q / 2) as nat) as int;
            assert(s0 * (2 * t) == (2 * s0) * t) by (nonlinear_arith);
            lemma2_to64();
            if j < 8 {
                lemma_pow2_strictly_increases(j as nat, 8);
            }
        }
        q = q / 2;
        s = s * 2;
        j = j + 1;
    }
    proof {
        lemma2_to64();
        if j < 8 {
            lemma_pow2_strictly_increases(j as nat, 8);
        }
        lemma_pow2_pos(j as nat);
        let a = q as int;
        let b = s as int;
        assert(0 <= n - a * b < b) by (nonlinear_arith)
            requires
                a * b <= n < (a + 1) * b,
        ;
        assert(a * b == b * a) by (nonlinear_arith);
        lemma_fundamental_div_mod_converse(n as int, b, a, n - a * b);
        let t = spacing(q as nat) as int;
        assert(b * t == b) by (nonlinear_arith)
            requires
                t == 1,
        ;
    }
    let rest: u64 = n as u64 - q * s;
    if 2 * rest > s || (2 * rest == s && q % 2 == 1) {
        q = q + 1;
    }
    assert(nearest(n as nat) == q * s);
    let mut m: u64 = q;
    let mut k: u32 = 0;
    if m >= 0x100_0000 {
        proof {
            lemma_pow2_unfold((j + 1) as nat);
            let b = s as int;
            assert(0x100_0000 * b == 0x80_0000 * (2 * b)) by (nonlinear_arith);
        }
        m = 0x80_0000;
        s = s * 2;
        j = j + 1;
    }
    let ghost base = m;
    while m < 0x80_0000
        invariant
            0 < m < 0x100_0000,
            m == base * pow2(k as nat),
            0 < base,
            k <= 23,
            k < 23 || m >= 0x80_0000,
            pow2(23) == 0x80_0000,
        decreases 0x100_0000 - m,
    {
        proof {
            lemma_pow2_unfold((k + 1) as nat);
            let p = pow2(k as nat) as int;
            let x = base as int;
            assert(x * (2 * p) == 2 * (x * p)) by (nonlinear_arith);
            if k == 22 {
                assert(x * (2 * p) >= 2 * p) by (nonlinear_arith)
                    requires
                        x >= 1,
                        p >= 0,
                ;
            }
        }
        m = m * 2;
        k = k + 1;
    }
    let e: u32 = 150 + j - k;
    let f: u32 = m as u32 - FRACTIONS;
    let bits: u32 = e * FRACTIONS + f;
    proof {
        assert(exponent_of(bits) == e);
        assert(fraction_of(bits) == f);
        lemma_pow2_adds(k as nat, (e - 1) as nat);
        lemma_pow2_adds(j as nat, 149);
        assert(k + (e - 1) == j + 149);
        let x = base as int;
        let pk = pow2(k as nat) as int;
        let pe = pow2((e - 1) as nat) as int;
        let pj = pow2(j as nat) as int;
        let u = unit() as int;
        assert((x * pk) * pe == (x * pj) * u) by (nonlinear_arith)
            requires
                pk * pe == pj * u,
        ;
    }
    bits
}

/// A number with an exponent field under 127 is nearer to zero than one.
proof fn lemma_below_one(bits: u32)
    requires
        exponent_of(bits) < 127,
    ensures
        magnitude_of(bits) < unit(),
        (magnitude_of(bits) as int) / (unit() as int) == 0,
{
    lemma2_to64();
    let e = exponent_of(bits);
    if e == 0 {
        lemma_pow2_strictly_increases(23, 149);
    } else {
        let p = pow2((e - 1) as nat);
        let f = fraction_of(bits);
        lemma_pow2_pos((e - 1) as nat);
        lemma_pow2_adds(24, (e - 1) as nat);
        assert((0x80_0000 + f) * p < 0x100_0000 * p) by (nonlinear_arith)
            requires
                f < 0x80_0000,
                p > 0,
        ;
        if e + 23 < 149 {
            lemma_pow2_strictly_increases((e + 23) as nat, 149);
        }
    }
    lemma_basic_div(magnitude_of(bits) as int, unit() as int);
}

/// The integer part in terms of the fields, for a number of at least one.
proof fn lemma_whole_part(bits: u32)
    requires
        127 <= exponent_of(bits),
    ensures
        exponent_of(bits) <= 150 ==> (magnitude_of(bits) as int) / (unit() as int) == (FRACTIONS as nat
            + fraction_of(bits)) / pow2((150 - exponent_of(bits)) as nat),
        exponent_of(bits) > 150 ==> (magnitude_of(bits) as int) / (unit() as int) == (FRACTIONS as nat
            + fraction_of(bits)) * pow2((exponent_of(bits) - 150) as nat),
{
    let e = exponent_of(bits);
    let m = (FRACTIONS as nat + fraction_of(bits)) as int;
    let p = pow2((e - 1) as nat) as int;
    lemma_pow2_pos((e - 1) as nat);
    lemma_pow2_pos(149);
    if e <= 150 {
        let q = pow2((150 - e) as nat) as int;
        lemma_pow2_pos((150 - e) as nat);
        lemma_pow2_adds((e - 1) as nat, (150 - e) as nat);
        assert(p * q == unit());
        lemma_div_denominator(m * p, p, q);
        lemma_div_multiples_vanish(m, p);
        assert(p * m == m * p) by (nonlinear_arith);
    } else {
        let q = pow2((e - 150) as nat) as int;
        lemma_pow2_adds((e - 150) as nat, 149);
        assert(p == q * (unit() as int));
        let u = unit() as int;
        assert(m * (q * u) == u * (m * q)) by (nonlinear_arith);
        lemma_div_multiples_vanish(m * q, u);
    }
}

/// A pattern whose significand is `v` shifted left by `k` places, with the exponent that
/// shifts it back, denotes `v`, or its negation where the sign bit is set.
pub proof fn lemma_denotes(bits: u32, v: nat, k: nat)
    requires
        k <= 23,
        exponent_of(bits) == 150 - k,
        FRACTIONS as nat + fraction_of(bits) == v * pow2(k),
    ensures
        bits < SIGN ==> (Single { bits }).denotes(v as int),
        bits >= SIGN ==> (Single { bits }).denotes(-(v as int)),
{
    let p = pow2((149 - k) as nat);
    lemma_pow2_adds(k, (149 - k) as nat);
    assert((v * pow2(k)) * p == v * (pow2(k) * p)) by (nonlinear_arith);
    let u = unit() as int;
    assert(-(v as int) * u == -(v * u)) by (nonlinear_arith);
}

/// What the named patterns denote.
pub proof fn lemma_named_values()
    ensures
        (Single { bits: 0 }).denotes(0),
        (Single { bits: ONE }).denotes(1),
        (Single { bits: HUNDRED }).denotes(100),
        !(Single { bits: HALF }).is_nan(),
        2 * (Single { bits: HALF }).units() == unit(),
{
    lemma2_to64();
    lemma_denotes(ONE, 1, 23);
    lemma_denotes(HUNDRED, 100, 17);
    lemma_pow2_adds(23, 125);
    lemma_pow2_unfold(149);
}

/// An integer part is never negative.
pub proof fn lemma_whole_is_natural(v: Single)
    ensures
        v.whole() >= 0,
{
    lemma_pow2_pos(149);
    if v.units() >= 0 {
        lemma_div_pos_is_pos(v.units(), unit() as int);
    }
}

/// The sign bit takes no part in a magnitude.
proof fn lemma_sign_is_apart(bits: u32)
    ensures
        magnitude_of((bits % SIGN) as u32) == magnitude_of(bits),
{
    let u = (bits % SIGN) as u32;
    assert(fraction_of(u) == fraction_of(bits));
    assert(exponent_of(u) == exponent_of(bits));
}

/// Unsigned patterns are ordered as the numbers that they denote.
pub proof fn lemma_magnitude_keeps_order(a: u32, b: u32)
    requires
        a < SIGN,
        b < SIGN,
    ensures
        a < b <==> magnitude_of(a) < magnitude_of(b),
        a == b <==> magnitude_of(a) == magnitude_of(b),
{
    if a < b {
        lemma_magnitude_grows(a, b);
    } else if b < a {
        lemma_magnitude_grows(b, a);
    }
}

proof fn lemma_magnitude_grows(a: u32, b: u32)
    requires
        a < b < SIGN,
    ensures
        magnitude_of(a) < magnitude_of(b),
{
    let f = FRACTIONS as int;
    let ea = exponent_of(a) as int;
    let eb = exponent_of(b) as int;
    let fa = fraction_of(a) as int;
    let fb = fraction_of(b) as int;
    assert(a == ea * f + fa);
    assert(b == eb * f + fb);
    assert(ea <= eb);
    if eb > 0 {
        lemma_pow2_pos((eb - 1) as nat);
        let pb = pow2((eb - 1) as nat) as int;
        assert(pb >= 1);
        assert((f + fb) * pb >= f * pb) by (nonlinear_arith)
            requires
                fb >= 0,
                pb >= 1,
        ;
        if ea == eb {
            assert((f + fa) * pb < (f + fb) * pb) by (nonlinear_arith)
                requires
                    fa < fb,
                    pb >= 1,
            ;
        } else if ea == 0 {
            assert(f * pb >= f) by (nonlinear_arith)
                requires
                    pb >= 1,
                    f == 0x80_0000,
            ;
        } else {
            let pa = pow2((ea - 1) as nat) as int;
            lemma_pow2_pos((ea - 1) as nat);
            lemma_pow2_unfold(ea as nat);
            if ea < eb - 1 {
                lemma_pow2_strictly_increases(ea as nat, (eb - 1) as nat);
            }
            assert(2 * pa <= pb);
            assert((f + fa) * pa < f * pb) by (nonlinear_arith)
                requires
                    0 <= fa < f,
                    pa >= 1,
                    2 * pa <= pb,
            ;
        }
    }
}

/// What a pattern denotes, by its fields: a number with a sign, 24 significant digits and an
/// exponent, the numbers next to zero with fewer digits, and no number where the exponent is the
/// highest and the fraction not zero.
pub proof fn law_number_by_fields(negative: bool, e: u32, f: u32)
    requires
        e <= 255,
        f < 0x80_0000,
    ensures
        ({
            let sign: int = if negative {
                0x8000_0000
            } else {
                0
            };
            let v = Single { bits: (sign + e * 0x80_0000 + f) as u32 };
            let size: int = if e == 0 {
                f as int
            } else {
                (0x80_0000 + f) * pow2((e - 1) as nat)
            };
            &&& v.is_nan() <==> e == 255 && f != 0
            &&& v.units() == if negative {
                -size
            } else {
                size
            }
        }),
{
    let sign: int = if negative {
        0x8000_0000
    } else {
        0
    };
    let bits = (sign + e * 0x80_0000 + f) as u32;
    assert(bits == sign + e * 0x80_0000 + f);
    assert(fraction_of(bits) == f);
    assert(exponent_of(bits) == e);
}

/// Two numbers are equal, or one is below the other; a non-number is neither equal to, nor above, nor
/// below anything. The order is that of what is denoted.
pub proof fn law_order_is_that_of_numbers(a: Single, b: Single)
    ensures
        a.is_nan() || b.is_nan() ==> !a.same_number(b) && !a.not_below(b) && !a.is_below(b),
        !a.is_nan() && !b.is_nan() ==> {
            &&& a.same_number(b) <==> a.units() == b.units()
            &&& a.not_below(b) <==> a.units() >= b.units()
            &&& a.is_below(b) <==> a.units() < b.units()
        },
{
}

/// Two unsigned patterns of numbers denote the same number only where they are the same pattern, and
/// both zeros denote zero.
pub proof fn law_numbers_have_one_pattern(a: Single, b: Single)
    requires
        a.same_number(b),
    ensures
        a == b || (a.units() == 0 && b.units() == 0),
{
    lemma_sign_is_apart(a.bits);
    lemma_sign_is_apart(b.bits);
    lemma_magnitude_keeps_order((a.bits % SIGN) as u32, (b.bits % SIGN) as u32);
}

/// The integer part is the largest integer up to the number, as far as `usize` can hold it; it is
/// zero for negative numbers and non-numbers.
pub proof fn law_whole_is_the_integer_part(v: Single)
    ensures
        0 <= v.whole() <= usize::MAX,
        v.is_nan() || v.units() < 0 ==> v.whole() == 0,
        !v.is_nan() && v.units() >= 0 ==> v.whole() * unit() <= v.units(),
        !v.is_nan() && v.units() >= 0 && v.whole() < usize::MAX ==> v.units() < (v.whole() + 1)
            * unit(),
{
    lemma_whole_is_natural(v);
    lemma_pow2_pos(149);
    let x = v.units();
    let u = unit() as int;
    let q = x / u;
    let rest = x % u;
    lemma_fundamental_div_mod(x, u);
    lemma_mod_bound(x, u);
    let top = usize::MAX as int;
    assert(q * u <= x < (q + 1) * u) by (nonlinear_arith)
        requires
            x == u * q + rest,
            0 <= rest < u,
    ;
    assert(q > top ==> top * u <= q * u) by (nonlinear_arith)
        requires
            u > 0,
    ;
    assert(0 * u == 0) by (nonlinear_arith);
}

/// An integer denotes what it is: the integer part of a pattern that denotes it.
pub proof fn law_whole_of_an_integer(v: Single, n: nat)
    requires
        v.denotes(n as int),
        n <= usize::MAX,
    ensures
        v.whole() == n,
{
    lemma_pow2_pos(149);
    let u = unit() as int;
    assert(n * u == u * n && n * u >= 0) by (nonlinear_arith)
        requires
            u > 0,
            n >= 0,
    ;
    lemma_div_multiples_vanish(n as int, u);
}

/// The nearest number is one of the format, and no number of the format is nearer: those are the
/// integers of up to 24 binary digits, times a power of two.
pub proof fn law_nearest_is_near(m: nat, k: nat, j: nat)
    requires
        k <= 0x100_0000,
    ensures
        exists|a: nat, b: nat| a <= 0x100_0000 && nearest(m) == #[trigger] (a * pow2(b)),
        distance(nearest(m), m) <= distance(k * pow2(j), m),
{
    let t = lemma_spacing(m);
    let s = pow2(t) as int;
    let q = m as int / s;
    let rest = m as int % s;
    lemma_pow2_pos(t);
    lemma_fundamental_div_mod(m as int, s);
    lemma_mod_bound(m as int, s);
    assert(q * s == s * q && (q + 1) * s == s * q + s) by (nonlinear_arith);
    assert(0 <= q < 0x100_0000) by (nonlinear_arith)
        requires
            m == s * q + rest,
            0 <= rest < s,
            0 <= m < 0x100_0000 * s,
    ;
    let up = 2 * rest > s || (2 * rest == s && q % 2 == 1);
    let a: nat = if up {
        (q + 1) as nat
    } else {
        q as nat
    };
    assert(nearest(m) == a * pow2(t));
    let p = pow2(j) as int;
    let r = k * p;
    if j >= t {
        lemma_pow2_adds((j - t) as nat, t);
        let c = k * pow2((j - t) as nat) as int;
        assert(r == c * s) by (nonlinear_arith)
            requires
                r == k * p,
                p == pow2((j - t) as nat) * s,
                c == k * pow2((j - t) as nat),
        ;
        assert(c <= q ==> c * s <= q * s) by (nonlinear_arith)
            requires
                s > 0,
        ;
        assert(c >= q + 1 ==> c * s >= (q + 1) * s) by (nonlinear_arith)
            requires
                s > 0,
        ;
    } else {
        lemma_pow2_unfold((j + 1) as nat);
        if j + 1 < t {
            lemma_pow2_strictly_increases((j + 1) as nat, t);
        }
        assert(r <= 0x80_0000 * s) by (nonlinear_arith)
            requires
                r == k * p,
                0 <= k <= 0x100_0000,
                0 <= 2 * p <= s,
        ;
        assert(q >= 0x80_0000) by (nonlinear_arith)
            requires
                m == s * q + rest,
                0 <= rest < s,
                m >= 0x80_0000 * s,
        ;
        assert(0x80_0000 * s <= q * s) by (nonlinear_arith)
            requires
                q >= 0x80_0000,
                s > 0,
        ;
    }
}

/// A number with an odd last digit is taken only where no other is as near: it is less than half a
/// step away.
pub proof fn law_ties_go_to_even(m: nat, k: nat, j: nat)
    requires
        0x80_0000 <= k < 0x100_0000,
        k % 2 == 1,
        nearest(m) == k * pow2(j),
    ensures
        2 * distance(nearest(m), m) < pow2(j),
{
    let t = lemma_spacing(m);
    let s = pow2(t) as int;
    let q = m as int / s;
    let rest = m as int % s;
    lemma_pow2_pos(t);
    lemma_pow2_pos(j);
    lemma_fundamental_div_mod(m as int, s);
    lemma_mod_bound(m as int, s);
    assert(q * s == s * q && (q + 1) * s == s * q + s) by (nonlinear_arith);
    if m < 0x100_0000 {
        law_small_integers_are_exact(m);
    } else {
        let up = 2 * rest > s || (2 * rest == s && q % 2 == 1);
        let a = if up {
            q + 1
        } else {
            q
        };
        assert(0x80_0000 <= q < 0x100_0000) by (nonlinear_arith)
            requires
                m == s * q + rest,
                0 <= rest < s,
                0x80_0000 * s <= m < 0x100_0000 * s,
        ;
        assert(nearest(m) == a * s);
        let p = pow2(j) as int;
        if j < t {
            lemma_pow2_unfold((j + 1) as nat);
            if j + 1 < t {
                lemma_pow2_strictly_increases((j + 1) as nat, t);
            }
            assert(k * p < a * s) by (nonlinear_arith)
                requires
                    0 <= k < 0x100_0000,
                    0 < 2 * p <= s,
                    a >= 0x80_0000,
            ;
        } else if j > t {
            lemma_pow2_unfold((t + 1) as nat);
            if t + 1 < j {
                lemma_pow2_strictly_increases((t + 1) as nat, j);
            }
            assert(k > 0x80_0000);
            assert(k * p > a * s) by (nonlinear_arith)
                requires
                    k > 0x80_0000,
                    p >= 2 * s,
                    s > 0,
                    0 <= a <= 0x100_0000,
            ;
        } else {
            assert(a == k) by (nonlinear_arith)
                requires
                    a * s == k * s,
                    s > 0,
            ;
        }
    }
}

/// The value of an integer is the nearest number with the sign of the integer, whatever its size, and
/// positive where the integer is zero. A pattern denotes an integer where it is so many times one, and
/// one is two to the 149 times the smallest positive number.
pub proof fn law_value_of_an_integer(v: Single, n: int)
    ensures
        is_nearest(v, n) ==> !v.is_nan(),
        is_nearest(v, n) && n >= 0 ==> v.bits < 0x8000_0000 && v.units() == nearest(n as nat) * pow2(
            149,
        ),
        is_nearest(v, n) && n < 0 ==> v.bits >= 0x8000_0000 && v.units() == -(nearest((-n) as nat)
            * pow2(149)),
        v.denotes(n) <==> !v.is_nan() && v.units() == n * pow2(149),
{
    let k = nearest((-n) as nat) as int;
    let u = pow2(149) as int;
    assert((-k) * u == -(k * u)) by (nonlinear_arith);
}

/// How far two integers are apart.
pub open spec fn distance(a: nat, b: nat) -> nat {
    if a < b {
        (b - a) as nat
    } else {
        (a - b) as nat
    }
}

/// The spacing is a power of two, and there are 24 digits in front of it.
proof fn lemma_spacing(m: nat) -> (t: nat)
    ensures
        spacing(m) == pow2(t),
        m < 0x100_0000 * pow2(t),
        m < 0x100_0000 ==> t == 0,
        m >= 0x100_0000 ==> m >= 0x80_0000 * pow2(t),
    decreases m,
{
    lemma2_to64();
    if m < 0x100_0000 {
        0
    } else {
        let less = lemma_spacing(m / 2);
        lemma_pow2_unfold((less + 1) as nat);
        less + 1
    }
}

} // verus!
