//! Amounts of an asset, held exactly as a whole count of its smallest unit.

use vstd::prelude::*;
use vstd::string::StrSliceExecFns;
use vstd::string::StringExecFns;
use crate::text::digits;
use crate::text::push_digits;

verus! {

/// How many fractional decimal digits an amount carries.
pub const FRACTION_DIGITS: u32 = 8;

/// The longest decimal text that is read, in characters. No amount in
/// range needs more, and the reader's depth grows with the text.
pub const MAX_DECIMAL_TEXT: usize = 128;

/// The largest count of units that an [`Amount`] holds, in either direction.
pub const MAX_UNITS: i64 = 9_223_372_036_854_775_807;

/// Ten to the power `n`.
pub open spec fn pow10(n: nat) -> nat
    decreases n,
{
    if n == 0 {
        1
    } else {
        10 * pow10((n - 1) as nat)
    }
}

/// The magnitude of an integer.
pub open spec fn magnitude(x: int) -> nat {
    if x >= 0 {
        x as nat
    } else {
        (-x) as nat
    }
}

/// Whether a count of units lies in the range that an [`Amount`] holds.
pub open spec fn fits(units: int) -> bool {
    -MAX_UNITS <= units <= MAX_UNITS
}

/// Whether `units` hundred-millionths are exactly the decimal number
/// `mantissa / 10^scale`.
pub open spec fn denotes(units: int, mantissa: int, scale: nat) -> bool {
    units * pow10(scale) == mantissa * pow10(FRACTION_DIGITS as nat)
}

/// The count of units in range that the decimal number
/// `mantissa / 10^scale` is exactly, where there is one.
pub open spec fn units_of_decimal(mantissa: int, scale: nat) -> Option<int> {
    if exists|units: int| fits(units) && denotes(units, mantissa, scale) {
        Some(choose|units: int| fits(units) && denotes(units, mantissa, scale))
    } else {
        None
    }
}

/// The count of units that a decimal text stands for, where the text is
/// no longer than [`MAX_DECIMAL_TEXT`], `rust_decimal` reads a number in it
/// and that number is a whole count in range.
pub open spec fn units_of_text(text: Seq<char>) -> Option<int> {
    if text.len() > MAX_DECIMAL_TEXT {
        None
    } else {
        match decimal_reading(text) {
            Some((mantissa, scale)) => units_of_decimal(mantissa as int, scale as nat),
            None => None,
        }
    }
}

/// The text of a count of units as an amount with exactly eight
/// fractional digits: a minus sign where it is below zero, the whole part,
/// a point, and the hundred-millionths.
pub open spec fn units_text(units: int) -> Seq<char> {
    let size = magnitude(units);
    let sign = if units < 0 {
        seq!['-']
    } else {
        Seq::<char>::empty()
    };
    sign + digits(size / 100_000_000, 1) + seq!['.'] + digits(size % 100_000_000, 8)
}

/// What `rust_decimal` reads in a decimal text: the mantissa and the scale
/// of the number, or `None` where it reads no number.
pub uninterp spec fn decimal_reading(text: Seq<char>) -> Option<(i128, u32)>;

/// Calls `rust_decimal::Decimal::from_str_exact` and takes the number apart
/// with `Decimal::mantissa` and `Decimal::scale`. The contract claims only
/// that the outcome is a function of the text, under the name
/// [`decimal_reading`]; an error of the parser becomes `None`. The parser
/// calls itself once for each byte, so long texts are left out.
#[verifier::external_body]
fn read_decimal(text: &str) -> (r: Option<(i128, u32)>)
    requires
        text@.len() <= MAX_DECIMAL_TEXT,
    ensures
        r == decimal_reading(text@),
{
    match rust_decimal::Decimal::from_str_exact(text) {
        Ok(number) => Some((number.mantissa(), number.scale())),
        Err(_) => None,
    }
}

/// A signed amount of an asset with eight fractional digits, held as a
/// count of hundred-millionths. Its view is that count.
#[derive(Clone, Copy, Debug)]
pub struct Amount {
    units: i64,
}

impl View for Amount {
    type V = int;

    closed spec fn view(&self) -> int {
        self.units as int
    }
}

impl Amount {
    /// The range is symmetric, so that every amount has a negation.
    #[verifier::type_invariant]
    pub open spec fn wf(self) -> bool {
        fits(self@)
    }

    /// The amount of `units` hundred-millionths; `None` for the one count
    /// that has no negation.
    pub fn from_units(units: i64) -> (r: Option<Amount>)
        ensures
            r is Some <==> fits(units as int),
            r matches Some(a) ==> a@ == units && a.wf(),
    {
        if units == i64::MIN {
            None
        } else {
            Some(Amount { units })
        }
    }

    /// The amount as a count of hundred-millionths.
    pub fn units(&self) -> (r: i64)
        ensures
            r == self@,
            fits(r as int),
    {
        proof {
            use_type_invariant(self);
        }
        self.units
    }

    /// The amount that the decimal number `mantissa / 10^scale` stands for,
    /// where that number is a whole count of hundred-millionths in range.
    pub fn from_decimal_parts(mantissa: i128, scale: u32) -> (r: Option<Amount>)
        ensures
            r matches Some(a) ==> a.wf() && denotes(a@, mantissa as int, scale as nat),
            r is None ==> forall|units: int|
                fits(units) ==> !denotes(units, mantissa as int, scale as nat),
            r is None <==> units_of_decimal(mantissa as int, scale as nat) is None,
            r matches Some(a) ==> units_of_decimal(mantissa as int, scale as nat) == Some(a@),
    {
        let r = Self::exact(mantissa, scale);
        proof {
            if let Some(a) = r {
                let chosen = choose|units: int|
                    fits(units) && denotes(units, mantissa as int, scale as nat);
                lemma_denotes_one(a@, chosen, mantissa as int, scale as nat);
            }
        }
        r
    }

    fn exact(mantissa: i128, scale: u32) -> (r: Option<Amount>)
        ensures
            r matches Some(a) ==> a.wf() && denotes(a@, mantissa as int, scale as nat),
            r is None ==> forall|units: int|
                fits(units) ==> !denotes(units, mantissa as int, scale as nat),
    {
        let negative = mantissa < 0;
        let mut reduced: u128 = if !negative {
            mantissa as u128
        } else if mantissa == i128::MIN {
            170_141_183_460_469_231_731_687_303_715_884_105_728u128
        } else {
            (-mantissa) as u128
        };
        let limit: u128 = MAX_UNITS as u128;
        let ghost whole = mantissa as int;
        let ghost digits = scale as nat;
        assert(pow10(0) == 1);
        assert(reduced == magnitude(whole));
        assert(reduced * pow10(0) == reduced);
        if scale <= FRACTION_DIGITS {
            let mut i: u32 = scale;
            while i < FRACTION_DIGITS && reduced <= limit
                invariant
                    scale <= i <= FRACTION_DIGITS,
                    limit == MAX_UNITS,
                    reduced == magnitude(whole) * pow10((i - scale) as nat),
                decreases FRACTION_DIGITS - i,
            {
                assert(magnitude(whole) * (10 * pow10((i - scale) as nat)) == 10 * (magnitude(
                    whole,
                ) * pow10((i - scale) as nat))) by (nonlinear_arith);
                reduced = reduced * 10;
                i = i + 1;
            }
            proof {
                let target = whole * pow10((8 - digits) as nat);
                lemma_pow10_grows((i - scale) as nat, (8 - digits) as nat);
                assert(magnitude(target) >= reduced) by (nonlinear_arith)
                    requires
                        reduced == magnitude(whole) * pow10((i - scale) as nat),
                        pow10((i - scale) as nat) <= pow10((8 - digits) as nat),
                        target == whole * pow10((8 - digits) as nat),
                ;
                assert(i == 8 ==> target == if whole < 0 {
                    -(reduced as int)
                } else {
                    reduced as int
                }) by (nonlinear_arith)
                    requires
                        reduced == magnitude(whole) * pow10((i - scale) as nat),
                        i == 8 ==> pow10((i - scale) as nat) == pow10((8 - digits) as nat),
                        target == whole * pow10((8 - digits) as nat),
                ;
                assert forall|units: int| denotes(units, whole, digits) <==> units == target by {
                    lemma_scaled_up(units, whole, digits);
                }
            }
        } else {
            let mut i: u32 = FRACTION_DIGITS;
            while i < scale && reduced != 0
                invariant
                    FRACTION_DIGITS <= i <= scale,
                    whole == mantissa,
                    digits == scale,
                    reduced * pow10((i - 8) as nat) == magnitude(whole),
                decreases scale - i,
            {
                if reduced % 10 != 0 {
                    proof {
                        assert forall|units: int| !denotes(units, whole, digits) by {
                            lemma_scaled_down(units, whole, digits);
                            lemma_not_a_multiple(
                                units,
                                whole,
                                reduced as nat,
                                (i - 8) as nat,
                                (digits - 8) as nat,
                            );
                        }
                    }
                    return None;
                }
                proof {
                    let low = pow10((i - 8) as nat);
                    assert((reduced / 10) * (10 * low) == reduced * low) by (nonlinear_arith)
                        requires
                            reduced % 10 == 0,
                    ;
                }
                reduced = reduced / 10;
                i = i + 1;
            }
            proof {
                let surplus = pow10((digits - 8) as nat);
                lemma_pow10_positive((digits - 8) as nat);
                lemma_pow10_positive((i - 8) as nat);
                assert(reduced == 0 ==> whole == 0) by (nonlinear_arith)
                    requires
                        reduced * pow10((i - 8) as nat) == magnitude(whole),
                ;
                assert(reduced * surplus == magnitude(whole)) by {
                    if reduced == 0 {
                        assert(reduced * surplus == 0) by (nonlinear_arith)
                            requires
                                reduced == 0,
                        ;
                    }
                }
                let target = if negative {
                    -(reduced as int)
                } else {
                    reduced as int
                };
                assert(target * surplus == whole) by (nonlinear_arith)
                    requires
                        reduced * surplus == magnitude(whole),
                        target == if whole < 0 {
                            -(reduced as int)
                        } else {
                            reduced as int
                        },
                ;
                assert forall|units: int| denotes(units, whole, digits) <==> units == target by {
                    lemma_scaled_down(units, whole, digits);
                    assert((units * surplus == target * surplus) <==> units == target)
                        by (nonlinear_arith)
                        requires
                            surplus > 0,
                    ;
                }
            }
        }
        if reduced > limit {
            None
        } else if negative {
            Some(Amount { units: -(reduced as i64) })
        } else {
            Some(Amount { units: reduced as i64 })
        }
    }

    /// Reads a decimal text such as `0.00100000` as an amount: `Some` where
    /// the text is a decimal number of at most [`MAX_DECIMAL_TEXT`]
    /// characters that is a whole count of hundred-millionths in range.
    pub fn parse(text: &str) -> (r: Option<Amount>)
        ensures
            r is None <==> units_of_text(text@) is None,
            r matches Some(a) ==> a.wf() && units_of_text(text@) == Some(a@),
    {
        if text.unicode_len() > MAX_DECIMAL_TEXT {
            return None;
        }
        match read_decimal(text) {
            Some((mantissa, scale)) => Self::from_decimal_parts(mantissa, scale),
            None => None,
        }
    }

    /// The amount as a text with exactly eight fractional digits.
    pub fn render(&self) -> (r: String)
        ensures
            r@ == units_text(self@),
    {
        let mut out = String::new();
        push_units(&mut out, self.units as i128);
        assert(out@ =~= units_text(self@));
        out
    }

    /// The amount of nothing.
    pub fn zero() -> (r: Amount)
        ensures
            r@ == 0,
            r.wf(),
    {
        Amount { units: 0 }
    }

    /// The same amount in the other direction.
    pub fn negated(&self) -> (r: Amount)
        ensures
            r@ == -self@,
            r.wf(),
    {
        proof {
            use_type_invariant(self);
        }
        Amount { units: -self.units }
    }
}

/// Writes a count of units behind a text, as an amount with exactly eight
/// fractional digits.
pub fn push_units(out: &mut String, units: i128)
    ensures
        final(out)@ == old(out)@ + units_text(units as int),
{
    proof {
        reveal_strlit("-");
        reveal_strlit(".");
    }
    let size: u128 = if units >= 0 {
        units as u128
    } else if units == i128::MIN {
        170_141_183_460_469_231_731_687_303_715_884_105_728u128
    } else {
        (-units) as u128
    };
    assert(size == magnitude(units as int));
    if units < 0 {
        out.append("-");
    }
    push_digits(out, size / 100_000_000, 1);
    out.append(".");
    push_digits(out, size % 100_000_000, 8);
    assert(out@ =~= old(out)@ + units_text(units as int));
}

/// A decimal number is at most one count of units.
pub proof fn lemma_denotes_one(units: int, other: int, mantissa: int, scale: nat)
    requires
        denotes(units, mantissa, scale),
        denotes(other, mantissa, scale),
    ensures
        units == other,
{
    lemma_pow10_positive(scale);
    assert(units == other) by (nonlinear_arith)
        requires
            units * pow10(scale) == other * pow10(scale),
            pow10(scale) > 0,
    ;
}

/// Every power of ten is above zero.
pub proof fn lemma_pow10_positive(n: nat)
    ensures
        pow10(n) > 0,
    decreases n,
{
    if n > 0 {
        lemma_pow10_positive((n - 1) as nat);
    }
}

/// The power of a sum is the product of the powers.
pub proof fn lemma_pow10_sum(a: nat, b: nat)
    ensures
        pow10(a + b) == pow10(a) * pow10(b),
    decreases a,
{
    if a == 0 {
        assert(pow10(a) == 1);
        assert(pow10(a) * pow10(b) == pow10(b));
    } else {
        let less = (a - 1) as nat;
        lemma_pow10_sum(less, b);
        assert((a + b - 1) as nat == less + b);
        assert(pow10(a + b) == 10 * pow10(less + b));
        assert(pow10(a) == 10 * pow10(less));
        assert(10 * (pow10(less) * pow10(b)) == (10 * pow10(less)) * pow10(b))
            by (nonlinear_arith);
    }
}

/// A higher power of ten is no smaller.
pub proof fn lemma_pow10_grows(a: nat, b: nat)
    requires
        a <= b,
    ensures
        pow10(a) <= pow10(b),
{
    lemma_pow10_sum(a, (b - a) as nat);
    lemma_pow10_positive(a);
    lemma_pow10_positive((b - a) as nat);
    assert(pow10(a) * 1 <= pow10(a) * pow10((b - a) as nat)) by (nonlinear_arith)
        requires
            pow10(a) > 0,
            pow10((b - a) as nat) >= 1,
    ;
}

/// With at most eight fractional digits the count of units is the
/// mantissa scaled up, and nothing else.
proof fn lemma_scaled_up(units: int, mantissa: int, scale: nat)
    requires
        scale <= FRACTION_DIGITS,
    ensures
        denotes(units, mantissa, scale) <==> units == mantissa * pow10((8 - scale) as nat),
{
    let low = pow10(scale);
    let high = pow10((8 - scale) as nat);
    lemma_pow10_sum((8 - scale) as nat, scale);
    lemma_pow10_positive(scale);
    assert(mantissa * (high * low) == (mantissa * high) * low) by (nonlinear_arith);
    assert((units * low == (mantissa * high) * low) <==> units == mantissa * high)
        by (nonlinear_arith)
        requires
            low > 0,
    ;
}

/// With more than eight fractional digits the count of units times the
/// surplus power of ten is the mantissa.
proof fn lemma_scaled_down(units: int, mantissa: int, scale: nat)
    requires
        scale > FRACTION_DIGITS,
    ensures
        denotes(units, mantissa, scale) <==> units * pow10((scale - 8) as nat) == mantissa,
{
    let base = pow10(8);
    let surplus = pow10((scale - 8) as nat);
    lemma_pow10_sum((scale - 8) as nat, 8);
    lemma_pow10_positive(8);
    assert(units * (surplus * base) == (units * surplus) * base) by (nonlinear_arith);
    assert(((units * surplus) * base == mantissa * base) <==> units * surplus == mantissa)
        by (nonlinear_arith)
        requires
            base > 0,
    ;
}

/// A mantissa whose reduced magnitude does not end in zero is no multiple
/// of a higher power of ten.
proof fn lemma_not_a_multiple(units: int, mantissa: int, reduced: nat, done: nat, surplus: nat)
    requires
        done < surplus,
        reduced % 10 != 0,
        reduced * pow10(done) == magnitude(mantissa),
    ensures
        units * pow10(surplus) != mantissa,
{
    let rest = pow10((surplus - done - 1) as nat);
    let low = pow10(done);
    lemma_pow10_sum(done, (surplus - done) as nat);
    lemma_pow10_positive(done);
    assert(pow10((surplus - done) as nat) == 10 * rest);
    if units * pow10(surplus) == mantissa {
        let size = magnitude(units);
        assert(size * (low * (10 * rest)) == magnitude(mantissa)) by (nonlinear_arith)
            requires
                units * (low * (10 * rest)) == mantissa,
                size == magnitude(units),
                low > 0,
                rest >= 0,
        ;
        assert(size * (low * (10 * rest)) == (10 * (size * rest)) * low) by (nonlinear_arith);
        assert(reduced == 10 * (size * rest)) by (nonlinear_arith)
            requires
                (10 * (size * rest)) * low == reduced * low,
                low > 0,
        ;
        assert(false);
    }
}

} // verus!
