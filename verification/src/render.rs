//! Textual presentation of amounts for the balance snapshot.
//!
//! The reporting rule: normalize the amount; a whole number is shown
//! with exactly one zero fraction digit; a fraction longer than four
//! digits is rounded (banker's rounding) to exactly four; anything
//! else is shown as stored. Rounding happens only here, never to
//! stored balances.

use vstd::prelude::*;

verus! {

use vstd::string::StringExecFns;
use crate::amount::{Amount, MAX_SCALE, pow10, pow10_exec};

/// The character for one decimal digit.
pub open spec fn digit_char(d: nat) -> char {
    if d == 0 {
        '0'
    } else if d == 1 {
        '1'
    } else if d == 2 {
        '2'
    } else if d == 3 {
        '3'
    } else if d == 4 {
        '4'
    } else if d == 5 {
        '5'
    } else if d == 6 {
        '6'
    } else if d == 7 {
        '7'
    } else if d == 8 {
        '8'
    } else {
        '9'
    }
}

/// The decimal digits of `n`, most significant first, no leading
/// zeros (a single zero for `n == 0`).
pub open spec fn dec_str(n: nat) -> Seq<char>
    decreases n,
{
    if n < 10 {
        seq![digit_char(n)]
    } else {
        dec_str(n / 10).push(digit_char(n % 10))
    }
}

/// Exactly `width` decimal digits of `f`, most significant first,
/// padded with leading zeros.
pub open spec fn frac_str(f: nat, width: nat) -> Seq<char>
    decreases width,
{
    if width == 0 {
        Seq::empty()
    } else {
        frac_str(f / 10, (width - 1) as nat).push(digit_char(f % 10))
    }
}

/// The text of `m / 10^s` for a positive scale: integer part, decimal
/// point, exactly `s` fraction digits.
pub open spec fn point_str(m: nat, s: nat) -> Seq<char> {
    dec_str(m / pow10(s)).push('.') + frac_str(m % pow10(s), s)
}

/// The mantissa of `m / 10^s` rounded to four fraction digits under
/// banker's rounding (ties go to the even neighbour); `s > 4`.
pub open spec fn round4_mantissa(m: nat, s: nat) -> nat {
    let p = pow10((s - 4) as nat);
    let q = m / p;
    let r = m % p;
    if r > p / 2 || (r == p / 2 && q % 2 == 1) {
        q + 1
    } else {
        q
    }
}

/// The reported text of a canonical mantissa/scale pair.
pub open spec fn report_chars(m: nat, s: nat) -> Seq<char> {
    if s == 0 {
        dec_str(m).push('.').push('0')
    } else if s <= 4 {
        point_str(m, s)
    } else {
        point_str(round4_mantissa(m, s), 4)
    }
}

/// The one-character string for a digit.
fn digit_literal(d: u128) -> (s: &'static str)
    requires
        d < 10,
    ensures
        s@ == seq![digit_char(d as nat)],
{
    if d == 0 {
        proof {
            reveal_strlit("0");
            assert("0"@ =~= seq![digit_char(0)]);
        }
        "0"
    } else if d == 1 {
        proof {
            reveal_strlit("1");
            assert("1"@ =~= seq![digit_char(1)]);
        }
        "1"
    } else if d == 2 {
        proof {
            reveal_strlit("2");
            assert("2"@ =~= seq![digit_char(2)]);
        }
        "2"
    } else if d == 3 {
        proof {
            reveal_strlit("3");
            assert("3"@ =~= seq![digit_char(3)]);
        }
        "3"
    } else if d == 4 {
        proof {
            reveal_strlit("4");
            assert("4"@ =~= seq![digit_char(4)]);
        }
        "4"
    } else if d == 5 {
        proof {
            reveal_strlit("5");
            assert("5"@ =~= seq![digit_char(5)]);
        }
        "5"
    } else if d == 6 {
        proof {
            reveal_strlit("6");
            assert("6"@ =~= seq![digit_char(6)]);
        }
        "6"
    } else if d == 7 {
        proof {
            reveal_strlit("7");
            assert("7"@ =~= seq![digit_char(7)]);
        }
        "7"
    } else if d == 8 {
        proof {
            reveal_strlit("8");
            assert("8"@ =~= seq![digit_char(8)]);
        }
        "8"
    } else {
        proof {
            reveal_strlit("9");
            assert("9"@ =~= seq![digit_char(9)]);
        }
        "9"
    }
}

/// The decimal digits of `n`, as text.
fn decimal_digits(n: u128) -> (s: String)
    ensures
        s@ == dec_str(n as nat),
    decreases n,
{
    if n < 10 {
        digit_literal(n).to_owned()
    } else {
        let mut s = decimal_digits(n / 10);
        s.append(digit_literal(n % 10));
        proof {
            assert(dec_str((n / 10) as nat) + seq![digit_char((n % 10) as nat)] =~= dec_str(
                (n / 10) as nat,
            ).push(digit_char((n % 10) as nat)));
        }
        s
    }
}

/// Exactly `width` digits of `f`, as text, zero-padded on the left.
fn fraction_digits(f: u128, width: u32) -> (s: String)
    ensures
        s@ == frac_str(f as nat, width as nat),
    decreases width,
{
    if width == 0 {
        String::new()
    } else {
        let mut s = fraction_digits(f / 10, width - 1);
        s.append(digit_literal(f % 10));
        proof {
            assert(frac_str((f / 10) as nat, (width - 1) as nat) + seq![digit_char(
                (f % 10) as nat,
            )] =~= frac_str((f / 10) as nat, (width - 1) as nat).push(digit_char((f % 10) as nat)));
        }
        s
    }
}

/// The text of `m / 10^s`, with exactly `s` fraction digits.
fn point_text(m: u128, s: u32) -> (t: String)
    requires
        1 <= s <= MAX_SCALE,
    ensures
        t@ == point_str(m as nat, s as nat),
{
    let p = pow10_exec(s);
    proof {
        crate::amount::lemma_pow10_pos(s as nat);
    }
    let mut t = decimal_digits(m / p);
    t.append(".");
    let f = fraction_digits(m % p, s);
    t.append(f.as_str());
    proof {
        reveal_strlit(".");
        assert(dec_str((m / p) as nat) + "."@ =~= dec_str((m / p) as nat).push('.'));
    }
    t
}

impl Amount {
    /// The text of this amount under the reporting rule.
    pub fn to_report_text(&self) -> (t: String)
        requires
            self.wf(),
        ensures
            t@ == report_chars(self.mantissa as nat, self.scale as nat),
    {
        if self.scale == 0 {
            let mut t = decimal_digits(self.mantissa);
            t.append(".0");
            proof {
                reveal_strlit(".0");
                assert(dec_str(self.mantissa as nat) + ".0"@ =~= dec_str(
                    self.mantissa as nat,
                ).push('.').push('0'));
            }
            t
        } else if self.scale <= 4 {
            point_text(self.mantissa, self.scale)
        } else {
            let p = pow10_exec(self.scale - 4);
            proof {
                crate::amount::lemma_pow10_pos((self.scale - 4) as nat);
            }
            let q = self.mantissa / p;
            let r = self.mantissa % p;
            let half = p / 2;
            let rounded = if r > half || (r == half && q % 2 == 1) {
                q + 1
            } else {
                q
            };
            point_text(rounded, 4)
        }
    }
}

} // verus!
