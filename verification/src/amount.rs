//! Exact, non-negative fixed-point decimal amounts.
//!
//! An [`Amount`] holds a mantissa and a decimal scale and stands for the
//! value `mantissa / 10^scale`. The representation is kept canonical
//! (no trailing fractional zeros), the mantissa is bounded by `2^96`
//! and the scale by 28, mirroring the 96-bit decimals this engine
//! exchanges with its callers. All arithmetic is exact: an operation
//! whose true result does not fit this range reports failure rather
//! than rounding or wrapping.

use vstd::prelude::*;

verus! {

use vstd::arithmetic::mul::{
    lemma_mul_basics,
    lemma_mul_inequality,
    lemma_mul_strict_inequality,
    lemma_mul_is_distributive_add,
    lemma_mul_is_associative,
    lemma_mul_is_commutative,
    lemma_mul_equality_converse,
    lemma_mul_increases,
    lemma_mul_strictly_increases,
};
use vstd::arithmetic::mul::lemma_mul_is_distributive_sub;
use vstd::arithmetic::div_mod::{
    lemma_fundamental_div_mod,
    lemma_fundamental_div_mod_converse_mod,
    lemma_mod_multiples_vanish,
};

/// Largest number of fractional decimal digits an amount may carry.
pub const MAX_SCALE: u32 = 28;

/// Exclusive upper bound on a mantissa: `2^96`.
pub const MAX_MANTISSA: u128 = 0x1_0000_0000_0000_0000_0000_0000;

/// Ten raised to `e`.
pub open spec fn pow10(e: nat) -> nat
    decreases e,
{
    if e == 0 {
        1
    } else {
        10 * pow10((e - 1) as nat)
    }
}

pub proof fn lemma_pow10_pos(e: nat)
    ensures
        pow10(e) >= 1,
    decreases e,
{
    if e > 0 {
        lemma_pow10_pos((e - 1) as nat);
    }
}

proof fn lemma_pow10_adds(a: nat, b: nat)
    ensures
        pow10(a + b) == pow10(a) * pow10(b),
    decreases a,
{
    if a == 0 {
        assert(pow10(0 + b) == 1 * pow10(b));
    } else {
        let a1 = (a - 1) as nat;
        lemma_pow10_adds(a1, b);
        assert(a + b == (a1 + b) + 1);
        assert(pow10(a + b) == 10 * pow10(a1 + b));
        assert(10 * (pow10(a1) * pow10(b)) == (10 * pow10(a1)) * pow10(b)) by {
            lemma_mul_is_associative(10, pow10(a1) as int, pow10(b) as int);
        }
        assert(pow10(a) == 10 * pow10(a1));
    }
}

/// Cancels a common power of ten on the right of an equality.
proof fn lemma_cancel_pow10(a: nat, b: nat, e: nat)
    requires
        a * pow10(e) == b * pow10(e),
    ensures
        a == b,
{
    lemma_pow10_pos(e);
    lemma_mul_is_commutative(a as int, pow10(e) as int);
    lemma_mul_is_commutative(b as int, pow10(e) as int);
    lemma_mul_equality_converse(pow10(e) as int, a as int, b as int);
}

/// Splits one scaling by `10^(d + e)` into two successive scalings.
proof fn lemma_mul_pow10_split(x: nat, d: nat, e: nat)
    ensures
        x * pow10(d + e) == (x * pow10(d)) * pow10(e),
{
    lemma_pow10_adds(d, e);
    lemma_mul_is_associative(x as int, pow10(d) as int, pow10(e) as int);
}

proof fn lemma_pow10_increases(a: nat, b: nat)
    requires
        a <= b,
    ensures
        pow10(a) <= pow10(b),
{
    lemma_pow10_adds(a, (b - a) as nat);
    lemma_pow10_pos(a);
    lemma_pow10_pos((b - a) as nat);
    lemma_mul_increases(pow10((b - a) as nat) as int, pow10(a) as int);
    lemma_mul_is_commutative(pow10(a) as int, pow10((b - a) as nat) as int);
}

proof fn lemma_pow10_strictly_increases(a: nat, b: nat)
    requires
        a < b,
    ensures
        pow10(a) < pow10(b),
{
    lemma_pow10_adds(a, (b - a) as nat);
    lemma_pow10_pos(a);
    lemma_pow10_pos((b - a - 1) as nat);
    assert(pow10((b - a) as nat) == 10 * pow10((b - a - 1) as nat));
    lemma_mul_strictly_increases(pow10((b - a) as nat) as int, pow10(a) as int);
    lemma_mul_is_commutative(pow10(a) as int, pow10((b - a) as nat) as int);
}

/// The largest admitted power of ten, `10^28`, written out.
proof fn lemma_pow10_28_value()
    ensures
        pow10(28) == 10000000000000000000000000000,
{
    reveal_with_fuel(pow10, 29);
}

/// Computes `10^e` for the admitted scales.
pub fn pow10_exec(e: u32) -> (r: u128)
    requires
        e <= MAX_SCALE,
    ensures
        r == pow10(e as nat),
{
    let mut r: u128 = 1;
    let mut i: u32 = 0;
    while i < e
        invariant
            i <= e <= MAX_SCALE,
            r == pow10(i as nat),
        decreases e - i,
    {
        proof {
            lemma_pow10_increases((i + 1) as nat, 28);
            lemma_pow10_28_value();
            assert(pow10((i + 1) as nat) == 10 * pow10(i as nat));
        }
        r = r * 10;
        i = i + 1;
    }
    r
}

/// A non-negative decimal amount, `mantissa / 10^scale`, kept in
/// canonical form: the fractional part never ends in zero.
#[derive(Clone, Copy, Debug, PartialEq, Eq, Structural)]
pub struct Amount {
    pub mantissa: u128,
    pub scale: u32,
}

/// `(m, s)` is an admissible, canonical mantissa/scale pair.
pub open spec fn canonical(m: nat, s: nat) -> bool {
    &&& s <= MAX_SCALE
    &&& m < MAX_MANTISSA
    &&& (s == 0 || m % 10 != 0)
}

/// The value of a mantissa/scale pair, measured in units of `10^-28`.
pub open spec fn val_of(m: nat, s: nat) -> nat {
    m * pow10((MAX_SCALE - s) as nat)
}

/// `(m, s)` represents the value `v` (in units of `10^-28`) within the
/// admitted mantissa and scale bounds.
pub open spec fn is_rep(m: nat, s: nat, v: nat) -> bool {
    &&& s <= MAX_SCALE
    &&& m < MAX_MANTISSA
    &&& v == val_of(m, s)
}

/// The value `v` (in units of `10^-28`) fits the fixed-point range.
pub open spec fn representable(v: nat) -> bool {
    exists|m: nat, s: nat| is_rep(m, s, v)
}

/// Any representation of the value of a canonical-fraction pair has a
/// mantissa at least as large: the canonical mantissa is minimal.
proof fn lemma_canonical_mantissa_minimal(m: nat, s: nat, m2: nat, s2: nat)
    requires
        s <= MAX_SCALE,
        s2 <= MAX_SCALE,
        s == 0 || m % 10 != 0,
        val_of(m, s) == val_of(m2, s2),
    ensures
        m2 >= m,
{
    let d = (MAX_SCALE - s) as nat;
    let d2 = (MAX_SCALE - s2) as nat;
    if d2 <= d {
        // m * pow10(d) rescales as (m * pow10(d - d2)) * pow10(d2),
        // so m2 == m * pow10(d - d2) >= m.
        let k = pow10((d - d2) as nat);
        lemma_pow10_pos((d - d2) as nat);
        lemma_mul_pow10_split(m, (d - d2) as nat, d2);
        assert((m * k) * pow10(d2) == m2 * pow10(d2));
        lemma_cancel_pow10(m * k, m2, d2);
        if m > 0 {
            lemma_mul_increases(k as int, m as int);
            lemma_mul_is_commutative(k as int, m as int);
        }
    } else {
        // s2 < s, so s > 0 and the fraction of m ends in a non-zero
        // digit; but m would have to be m2 * 10^(d2 - d), a multiple
        // of ten (or zero, which also ends in zero).
        assert(s > 0);
        let k = pow10((d2 - d) as nat);
        lemma_mul_pow10_split(m2, (d2 - d) as nat, d);
        assert((m2 * k) * pow10(d) == m * pow10(d));
        lemma_cancel_pow10(m2 * k, m, d);
        assert(m == m2 * k);
        let j = pow10((d2 - d - 1) as nat);
        assert(k == 10 * j);
        assert(m == 10 * (m2 * j)) by {
            lemma_mul_is_associative(m2 as int, 10, j as int);
            lemma_mul_is_commutative(m2 as int, 10);
            lemma_mul_is_associative(10, m2 as int, j as int);
        }
        assert(m % 10 == 0) by {
            lemma_mod_multiples_vanish((m2 * j) as int, 0, 10);
        }
        assert(false);
    }
}

/// A value whose canonical-fraction representation needs a mantissa at
/// or above the bound is representable by no admitted pair at all.
proof fn lemma_big_canonical_unrepresentable(m: nat, s: nat)
    requires
        s <= MAX_SCALE,
        s == 0 || m % 10 != 0,
        m >= MAX_MANTISSA,
    ensures
        !representable(val_of(m, s)),
{
    let v = val_of(m, s);
    if representable(v) {
        let (m2, s2): (nat, nat) = choose|m2: nat, s2: nat| is_rep(m2, s2, v);
        lemma_canonical_mantissa_minimal(m, s, m2, s2);
        assert(false);
    }
}

/// Two well-formed amounts of equal value are the same amount: the
/// canonical representation is unique. Whatever path a balance took to
/// reach a value, it is stored — and hence reported — identically.
pub proof fn lemma_canonical_unique(a: Amount, b: Amount)
    requires
        a.wf(),
        b.wf(),
        a.val() == b.val(),
    ensures
        a == b,
{
    let ma = a.mantissa as nat;
    let mb = b.mantissa as nat;
    let sa = a.scale as nat;
    let sb = b.scale as nat;
    lemma_canonical_mantissa_minimal(ma, sa, mb, sb);
    lemma_canonical_mantissa_minimal(mb, sb, ma, sa);
    assert(ma == mb);
    if ma == 0 {
        assert(sa == 0 && sb == 0);
    } else {
        let da = (MAX_SCALE - sa) as nat;
        let db = (MAX_SCALE - sb) as nat;
        lemma_mul_is_commutative(ma as int, pow10(da) as int);
        lemma_mul_is_commutative(mb as int, pow10(db) as int);
        lemma_mul_equality_converse(ma as int, pow10(da) as int, pow10(db) as int);
        if da < db {
            lemma_pow10_strictly_increases(da, db);
        }
        if db < da {
            lemma_pow10_strictly_increases(db, da);
        }
    }
}

impl Amount {
    /// The representation is admissible and canonical.
    pub open spec fn wf(self) -> bool {
        canonical(self.mantissa as nat, self.scale as nat)
    }

    /// The value of this amount, measured in units of `10^-28`.
    pub open spec fn val(self) -> nat {
        val_of(self.mantissa as nat, self.scale as nat)
    }

    /// The zero amount.
    pub fn zero() -> (r: Amount)
        ensures
            r == (Amount { mantissa: 0, scale: 0 }),
            r.wf(),
            r.val() == 0,
    {
        Amount { mantissa: 0, scale: 0 }
    }

    /// Every well-formed amount's value is representable; its own
    /// representation witnesses it.
    pub proof fn lemma_val_representable(self)
        requires
            self.wf(),
        ensures
            representable(self.val()),
    {
        assert(is_rep(self.mantissa as nat, self.scale as nat, self.val()));
    }

    /// Builds the amount `mantissa / 10^scale`, normalizing trailing
    /// fractional zeros away. Rejects a pair outside the admitted
    /// range (scale above 28 or mantissa at or above `2^96`).
    pub fn new(mantissa: u128, scale: u32) -> (r: Option<Amount>)
        ensures
            match r {
                Some(a) => {
                    &&& a.wf()
                    &&& scale <= MAX_SCALE
                    &&& mantissa < MAX_MANTISSA
                    &&& a.val() == val_of(mantissa as nat, scale as nat)
                },
                None => scale > MAX_SCALE || mantissa >= MAX_MANTISSA,
            },
    {
        if scale > MAX_SCALE || mantissa >= MAX_MANTISSA {
            None
        } else {
            let (m, s) = normalize_parts(mantissa, scale);
            Some(Amount { mantissa: m, scale: s })
        }
    }

    /// The exact sum, or `None` when it does not fit the fixed-point
    /// range.
    pub fn checked_add(self, other: Amount) -> (r: Option<Amount>)
        requires
            self.wf(),
            other.wf(),
        ensures
            match r {
                Some(sum) => sum.wf() && sum.val() == self.val() + other.val(),
                None => !representable(self.val() + other.val()),
            },
    {
        let (a, b) = if self.scale <= other.scale {
            (self, other)
        } else {
            (other, self)
        };
        let ghost v = (self.val() + other.val()) as nat;
        let d = b.scale - a.scale;
        let factor = pow10_exec(d);
        proof {
            lemma_sum_val(a.mantissa as nat, b.mantissa as nat, b.scale as nat, d as nat);
            assert(v == val_of(a.mantissa as nat * pow10(d as nat) + b.mantissa as nat,
                b.scale as nat));
        }
        match a.mantissa.checked_mul(factor) {
            None => {
                proof {
                    // The aligned mantissa alone exceeds u128; with b's
                    // fraction ending in a non-zero digit the sum is
                    // canonical and far beyond the mantissa bound.
                    if a.scale == b.scale {
                        assert(factor == 1) by { reveal_with_fuel(pow10, 1); }
                        lemma_mul_basics(a.mantissa as int);
                        assert(false);
                    }
                    let total = (a.mantissa * factor + b.mantissa) as nat;
                    lemma_sum_with_aligned_is_canonical(
                        a.mantissa as nat,
                        b.mantissa as nat,
                        b.scale as nat,
                        d as nat,
                    );
                    lemma_big_canonical_unrepresentable(total, b.scale as nat);
                }
                None
            },
            Some(am) => {
                match am.checked_add(b.mantissa) {
                    None => {
                        proof {
                            if a.scale == b.scale {
                                assert(factor == 1) by { reveal_with_fuel(pow10, 1); }
                                lemma_mul_basics(a.mantissa as int);
                                assert(false);
                            }
                            let total = (am + b.mantissa) as nat;
                            lemma_sum_with_aligned_is_canonical(
                                a.mantissa as nat,
                                b.mantissa as nat,
                                b.scale as nat,
                                d as nat,
                            );
                            lemma_big_canonical_unrepresentable(total, b.scale as nat);
                        }
                        None
                    },
                    Some(total) => {
                        proof {
                            assert(v == val_of(total as nat, b.scale as nat));
                        }
                        let (m, s) = normalize_parts(total, b.scale);
                        if m >= MAX_MANTISSA {
                            proof {
                                lemma_big_canonical_unrepresentable(m as nat, s as nat);
                            }
                            None
                        } else {
                            Some(Amount { mantissa: m, scale: s })
                        }
                    },
                }
            },
        }
    }

    /// Whether this amount is at least as large as `other`.
    pub fn ge(self, other: Amount) -> (r: bool)
        requires
            self.wf(),
            other.wf(),
        ensures
            r == (self.val() >= other.val()),
    {
        if self.scale == other.scale {
            proof {
                lemma_val_le_iff(other.mantissa as nat, self.mantissa as nat, self.scale as nat);
                lemma_val_le_iff(self.mantissa as nat, other.mantissa as nat, self.scale as nat);
            }
            self.mantissa >= other.mantissa
        } else if self.scale < other.scale {
            let d = other.scale - self.scale;
            let factor = pow10_exec(d);
            proof {
                lemma_align_to_common_scale(
                    self.mantissa as nat,
                    self.scale as nat,
                    other.scale as nat,
                );
                lemma_val_le_iff(
                    (self.mantissa * factor) as nat,
                    other.mantissa as nat,
                    other.scale as nat,
                );
                lemma_val_le_iff(
                    other.mantissa as nat,
                    (self.mantissa * factor) as nat,
                    other.scale as nat,
                );
            }
            match self.mantissa.checked_mul(factor) {
                None => true,
                Some(am) => am >= other.mantissa,
            }
        } else {
            let d = self.scale - other.scale;
            let factor = pow10_exec(d);
            proof {
                lemma_align_to_common_scale(
                    other.mantissa as nat,
                    other.scale as nat,
                    self.scale as nat,
                );
                lemma_val_le_iff(
                    (other.mantissa * factor) as nat,
                    self.mantissa as nat,
                    self.scale as nat,
                );
                lemma_val_le_iff(
                    self.mantissa as nat,
                    (other.mantissa * factor) as nat,
                    self.scale as nat,
                );
            }
            match other.mantissa.checked_mul(factor) {
                None => false,
                Some(bm) => self.mantissa >= bm,
            }
        }
    }

    /// The exact difference, or `None` when it does not fit the
    /// fixed-point range.
    pub fn checked_sub(self, other: Amount) -> (r: Option<Amount>)
        requires
            self.wf(),
            other.wf(),
            other.val() <= self.val(),
        ensures
            match r {
                Some(dif) => dif.wf() && dif.val() == self.val() - other.val(),
                None => !representable((self.val() - other.val()) as nat),
            },
    {
        let ghost v = (self.val() - other.val()) as nat;
        if self.scale >= other.scale {
            // Align the coarser subtrahend up; its aligned mantissa is
            // bounded by this amount's mantissa, so nothing overflows.
            let d = self.scale - other.scale;
            let factor = pow10_exec(d);
            proof {
                lemma_align_to_common_scale(
                    other.mantissa as nat,
                    other.scale as nat,
                    self.scale as nat,
                );
                lemma_val_le_iff(
                    (other.mantissa * factor) as nat,
                    self.mantissa as nat,
                    self.scale as nat,
                );
                lemma_diff_val(
                    self.mantissa as nat,
                    (other.mantissa * factor) as nat,
                    self.scale as nat,
                );
            }
            let bm = other.mantissa * factor;
            let diff = self.mantissa - bm;
            let (m, s) = normalize_parts(diff, self.scale);
            Some(Amount { mantissa: m, scale: s })
        } else {
            // Align this amount up to the finer scale; if the aligned
            // mantissa leaves u128, the exact difference inherits the
            // subtrahend's non-zero last digit and is far beyond the
            // mantissa bound.
            let d = other.scale - self.scale;
            let factor = pow10_exec(d);
            proof {
                lemma_align_to_common_scale(
                    self.mantissa as nat,
                    self.scale as nat,
                    other.scale as nat,
                );
                lemma_val_le_iff(
                    other.mantissa as nat,
                    (self.mantissa * factor) as nat,
                    other.scale as nat,
                );
                lemma_diff_val(
                    (self.mantissa * factor) as nat,
                    other.mantissa as nat,
                    other.scale as nat,
                );
            }
            match self.mantissa.checked_mul(factor) {
                None => {
                    proof {
                        let am = (self.mantissa * factor) as nat;
                        let j = (self.mantissa * pow10((d - 1) as nat)) as nat;
                        assert(am == 10 * j) by {
                            assert(pow10(d as nat) == 10 * pow10((d - 1) as nat));
                            lemma_mul_is_associative(
                                self.mantissa as int,
                                10,
                                pow10((d - 1) as nat) as int,
                            );
                            lemma_mul_is_commutative(self.mantissa as int, 10);
                            lemma_mul_is_associative(
                                10,
                                self.mantissa as int,
                                pow10((d - 1) as nat) as int,
                            );
                        }
                        lemma_sub_mod_ten(j, other.mantissa as nat);
                        let diff = (am - other.mantissa) as nat;
                        lemma_big_canonical_unrepresentable(diff, other.scale as nat);
                    }
                    None
                },
                Some(am) => {
                    let diff = am - other.mantissa;
                    let (m, s) = normalize_parts(diff, other.scale);
                    if m >= MAX_MANTISSA {
                        proof {
                            lemma_big_canonical_unrepresentable(m as nat, s as nat);
                        }
                        None
                    } else {
                        Some(Amount { mantissa: m, scale: s })
                    }
                },
            }
        }
    }
}

/// Comparing values at a common scale is comparing mantissas.
proof fn lemma_val_le_iff(ma: nat, mb: nat, s: nat)
    requires
        s <= MAX_SCALE,
    ensures
        val_of(ma, s) <= val_of(mb, s) <==> ma <= mb,
        val_of(ma, s) == val_of(mb, s) <==> ma == mb,
{
    let p = pow10((MAX_SCALE - s) as nat);
    lemma_pow10_pos((MAX_SCALE - s) as nat);
    if ma <= mb {
        lemma_mul_inequality(ma as int, mb as int, p as int);
    }
    if mb < ma {
        lemma_mul_strict_inequality(mb as int, ma as int, p as int);
    }
    if mb <= ma {
        lemma_mul_inequality(mb as int, ma as int, p as int);
    }
    if ma < mb {
        lemma_mul_strict_inequality(ma as int, mb as int, p as int);
    }
}

/// The value of a difference of mantissas at a common scale is the
/// difference of the values.
proof fn lemma_diff_val(ma: nat, mb: nat, s: nat)
    requires
        s <= MAX_SCALE,
        mb <= ma,
    ensures
        val_of((ma - mb) as nat, s) == val_of(ma, s) - val_of(mb, s),
{
    let p = pow10((MAX_SCALE - s) as nat);
    lemma_mul_is_distributive_sub(p as int, ma as int, mb as int);
    lemma_mul_is_commutative(p as int, ma as int);
    lemma_mul_is_commutative(p as int, mb as int);
    lemma_mul_is_commutative(p as int, (ma - mb) as int);
}

/// Subtracting a number whose last digit is non-zero from a multiple
/// of ten leaves a non-zero last digit.
proof fn lemma_sub_mod_ten(j: nat, mb: nat)
    requires
        mb <= 10 * j,
        mb % 10 != 0,
    ensures
        ((10 * j - mb) as nat) % 10 != 0,
{
    let q = mb / 10;
    let r = mb % 10;
    lemma_fundamental_div_mod(mb as int, 10);
    assert(mb == 10 * q + r);
    assert(j >= q + 1);
    let x = (10 * j - mb) as nat;
    assert(x == (j - q - 1) * 10 + (10 - r)) by {
        lemma_mul_is_distributive_sub(10, j as int, (q + 1) as int);
        lemma_mul_is_commutative((j - q - 1) as int, 10);
    }
    lemma_fundamental_div_mod_converse_mod(x as int, 10, (j - q - 1) as int, (10 - r) as int);
}

/// Dividing out trailing zeros of the fraction: yields the canonical
/// scale for the same value, never increasing the mantissa.
fn normalize_parts(mantissa: u128, scale: u32) -> (r: (u128, u32))
    requires
        scale <= MAX_SCALE,
    ensures
        r.1 <= scale,
        r.0 <= mantissa,
        r.1 == 0 || r.0 % 10 != 0,
        val_of(r.0 as nat, r.1 as nat) == val_of(mantissa as nat, scale as nat),
{
    let mut m = mantissa;
    let mut s = scale;
    while s > 0 && m % 10 == 0
        invariant
            s <= scale <= MAX_SCALE,
            m <= mantissa,
            val_of(m as nat, s as nat) == val_of(mantissa as nat, scale as nat),
        decreases s,
    {
        proof {
            lemma_fundamental_div_mod(m as int, 10);
            let m2 = (m / 10) as nat;
            assert(m == 10 * m2);
            assert(pow10((MAX_SCALE - (s - 1)) as nat) == 10 * pow10((MAX_SCALE - s) as nat));
            assert(m2 * (10 * pow10((MAX_SCALE - s) as nat)) == (10 * m2) * pow10(
                (MAX_SCALE - s) as nat,
            )) by {
                lemma_mul_is_associative(m2 as int, 10, pow10((MAX_SCALE - s) as nat) as int);
                lemma_mul_is_commutative(m2 as int, 10);
                lemma_mul_is_associative(10, m2 as int, pow10((MAX_SCALE - s) as nat) as int);
            }
        }
        m = m / 10;
        s = s - 1;
    }
    (m, s)
}

/// Aligning a mantissa from scale `s` up to scale `s2` multiplies it by
/// `10^(s2 - s)` and preserves the value.
proof fn lemma_align_to_common_scale(m: nat, s: nat, s2: nat)
    requires
        s <= s2 <= MAX_SCALE,
    ensures
        val_of(m * pow10((s2 - s) as nat), s2) == val_of(m, s),
{
    let d = (s2 - s) as nat;
    let e2 = (MAX_SCALE - s2) as nat;
    let e = (MAX_SCALE - s) as nat;
    lemma_pow10_adds(d, e2);
    assert(e == d + e2);
    assert((m * pow10(d)) * pow10(e2) == m * (pow10(d) * pow10(e2))) by {
        lemma_mul_is_associative(m as int, pow10(d) as int, pow10(e2) as int);
    }
}

/// The value of a sum of mantissas at a common scale is the sum of the
/// values.
proof fn lemma_sum_val(ma: nat, mb: nat, s2: nat, d: nat)
    requires
        s2 <= MAX_SCALE,
        d <= s2,
    ensures
        val_of(ma * pow10(d) + mb, s2) == val_of(ma, (s2 - d) as nat) + val_of(mb, s2),
{
    let e2 = (MAX_SCALE - s2) as nat;
    lemma_mul_is_distributive_add(pow10(e2) as int, (ma * pow10(d)) as int, mb as int);
    lemma_mul_is_commutative(pow10(e2) as int, (ma * pow10(d)) as int);
    lemma_mul_is_commutative(pow10(e2) as int, mb as int);
    lemma_mul_is_commutative(pow10(e2) as int, (ma * pow10(d) + mb) as int);
    lemma_align_to_common_scale(ma, (s2 - d) as nat, s2);
}

/// When the coarser operand is aligned up to a strictly finer scale,
/// the summed mantissa inherits the finer operand's non-zero last
/// digit, so the sum is already in canonical form at that scale.
proof fn lemma_sum_with_aligned_is_canonical(ma: nat, mb: nat, s2: nat, d: nat)
    requires
        0 < d <= s2 <= MAX_SCALE,
        mb % 10 != 0,
    ensures
        (ma * pow10(d) + mb) % 10 == mb % 10,
{
    let j = pow10((d - 1) as nat);
    assert(pow10(d) == 10 * j);
    assert(ma * (10 * j) == 10 * (ma * j)) by {
        lemma_mul_is_associative(ma as int, 10, j as int);
        lemma_mul_is_commutative(ma as int, 10);
        lemma_mul_is_associative(10, ma as int, j as int);
    }
    lemma_mod_multiples_vanish((ma * j) as int, mb as int, 10);
}

} // verus!
