//! Money: an exact decimal amount with four fractional digits.

use crate::decimal::{
    all_digits, ascii_bytes, decimal_value, digit_value, digits_of, is_digit,
    lemma_decimal_value_concat, lemma_decimal_value_push, lemma_digits_of_value,
    lemma_padded_digits_value, padded_digits, pow10, push_digits, push_padded_digits,
};
use std::cmp::Ordering;
use vstd::prelude::*;
use vstd::std_specs::cmp::PartialOrdSpecImpl;
use vstd::string::*;

verus! {

/// The number of units in one whole: a unit is one ten-thousandth.
pub const SCALE: i64 = 10_000;

/// The number of digits that a literal may have after its point.
pub const FRACTION_DIGITS: usize = 4;

/// Why a text is not the literal of an amount.
#[derive(Clone, Copy, Debug, PartialEq, Eq, Structural)]
pub enum ParseError {
    /// The text is not an optional sign, digits, and at most one point among
    /// them, with at least one digit.
    Malformed,
    /// The literal has more digits after the point than an amount can hold.
    TooPrecise,
    /// The literal denotes more than an amount can hold.
    OutOfRange,
}

/// An exact decimal amount with four fractional digits, held as a count of
/// ten-thousandths. It may be negative.
#[derive(Clone, Copy, Debug, PartialEq, Eq, Structural, Hash, Ord)]
pub struct Money {
    units: i64,
}

impl View for Money {
    type V = int;

    /// The amount in ten-thousandths.
    closed spec fn view(&self) -> int {
        self.units as int
    }
}

impl PartialOrd for Money {
    /// Amounts are ordered by their ten-thousandths.
    fn partial_cmp(&self, other: &Money) -> (r: Option<Ordering>) {
        if self.units < other.units {
            Some(Ordering::Less)
        } else if self.units > other.units {
            Some(Ordering::Greater)
        } else {
            Some(Ordering::Equal)
        }
    }
}

impl PartialOrdSpecImpl for Money {
    open spec fn obeys_partial_cmp_spec() -> bool {
        true
    }

    open spec fn partial_cmp_spec(&self, other: &Money) -> Option<Ordering> {
        if self@ < other@ {
            Some(Ordering::Less)
        } else if self@ > other@ {
            Some(Ordering::Greater)
        } else {
            Some(Ordering::Equal)
        }
    }
}

impl Default for Money {
    /// The amount of nothing.
    fn default() -> (r: Money)
        ensures
            r@ == 0,
    {
        Money { units: 0 }
    }
}

/// Whether a literal starts with a sign.
pub open spec fn is_signed(s: Seq<char>) -> bool {
    s.len() > 0 && (s[0] == '+' || s[0] == '-')
}

/// Whether a literal starts with a minus sign.
pub open spec fn is_negative(s: Seq<char>) -> bool {
    s.len() > 0 && s[0] == '-'
}

/// What follows the optional sign of a literal.
pub open spec fn literal_body(s: Seq<char>) -> Seq<char> {
    if is_signed(s) {
        s.skip(1)
    } else {
        s
    }
}

/// Where the first point of `body` stands, or the length of `body` where it
/// has none.
pub open spec fn point_index(body: Seq<char>) -> int
    decreases body.len(),
{
    if body.len() == 0 || body[0] == '.' {
        0
    } else {
        1 + point_index(body.drop_first())
    }
}

/// What stands before the first point.
pub open spec fn whole_part(body: Seq<char>) -> Seq<char> {
    body.take(point_index(body))
}

/// What stands after the first point.
pub open spec fn fraction_part(body: Seq<char>) -> Seq<char> {
    if point_index(body) < body.len() {
        body.skip(point_index(body) + 1)
    } else {
        Seq::empty()
    }
}

/// Whether `s` is a decimal literal: an optional sign, then digits with at
/// most one point among them, and at least one digit.
pub open spec fn is_literal(s: Seq<char>) -> bool {
    let body = literal_body(s);
    &&& all_digits(whole_part(body))
    &&& all_digits(fraction_part(body))
    &&& whole_part(body).len() + fraction_part(body).len() > 0
}

/// The ten-thousandths that a literal with at most four fractional digits
/// denotes.
pub open spec fn literal_units(s: Seq<char>) -> int
    recommends
        is_literal(s),
        fraction_part(literal_body(s)).len() <= FRACTION_DIGITS,
{
    let body = literal_body(s);
    let fraction = fraction_part(body);
    let magnitude = decimal_value(whole_part(body)) * SCALE + decimal_value(fraction) * pow10(
        (FRACTION_DIGITS - fraction.len()) as nat,
    );
    if is_negative(s) {
        -magnitude
    } else {
        magnitude
    }
}

/// The digits that stand after the point for `f` units out of ten to the
/// power `width`: as many as are needed, and none where `f` is zero.
pub open spec fn fraction_text(f: nat, width: nat) -> Seq<char>
    decreases width,
{
    if width == 0 || f == 0 {
        Seq::empty()
    } else if f % 10 == 0 {
        fraction_text(f / 10, (width - 1) as nat)
    } else {
        padded_digits(f, width)
    }
}

/// The canonical text of `units` ten-thousandths: a minus sign where they are
/// negative, the whole part without leading zeros and, where the amount is not
/// whole, a point and the fractional digits without trailing zeros.
pub open spec fn canonical_text(units: int) -> Seq<char> {
    let magnitude = if units < 0 {
        -units
    } else {
        units
    };
    let sign = if units < 0 {
        seq!['-']
    } else {
        Seq::empty()
    };
    let whole = digits_of((magnitude / SCALE as int) as nat);
    let f = (magnitude % SCALE as int) as nat;
    if f == 0 {
        sign + whole
    } else {
        sign + whole + seq!['.'] + fraction_text(f, FRACTION_DIGITS as nat)
    }
}

/// The first point stands within `body` or at its end, nothing before it is
/// a point, and where it is not the end, it is one.
pub proof fn lemma_point_index(body: Seq<char>)
    ensures
        0 <= point_index(body) <= body.len(),
        forall|j: int| 0 <= j < point_index(body) ==> body[j] != '.',
        point_index(body) < body.len() ==> body[point_index(body)] == '.',
    decreases body.len(),
{
    if body.len() == 0 || body[0] == '.' {
    } else {
        let rest = body.drop_first();
        lemma_point_index(rest);
        assert forall|j: int| 0 <= j < point_index(body) implies body[j] != '.' by {
            if j > 0 {
                assert(body[j] == rest[j - 1]);
            }
        }
    }
}

/// The first point stands at `p` where `p` holds a point, or is the end, and
/// nothing before `p` is one.
pub proof fn lemma_point_index_is(body: Seq<char>, p: int)
    requires
        0 <= p <= body.len(),
        forall|j: int| 0 <= j < p ==> body[j] != '.',
        p < body.len() ==> body[p] == '.',
    ensures
        point_index(body) == p,
{
    lemma_point_index(body);
}

/// The fractional digits written for `f` are digits, at most `width` of them,
/// and denote `f` once they are brought back to that width.
pub proof fn lemma_fraction_text(f: nat, width: nat)
    requires
        f < pow10(width),
    ensures
        all_digits(fraction_text(f, width)),
        fraction_text(f, width).len() <= width,
        f > 0 ==> fraction_text(f, width).len() > 0,
        decimal_value(fraction_text(f, width)) * pow10(
            (width - fraction_text(f, width).len()) as nat,
        ) == f,
    decreases width,
{
    let text = fraction_text(f, width);
    let value = decimal_value(text);
    let scale = pow10((width - text.len()) as nat);
    if width == 0 || f == 0 {
        assert(value * scale == 0) by (nonlinear_arith)
            requires
                value == 0,
        ;
    } else if f % 10 == 0 {
        let shorter = (width - 1) as nat;
        lemma_fraction_text(f / 10, shorter);
        let rest = pow10((shorter - text.len()) as nat);
        assert(value * (10 * rest) == 10 * (value * rest)) by (nonlinear_arith);
    } else {
        lemma_padded_digits_value(f, width);
        vstd::arithmetic::div_mod::lemma_small_mod(f, pow10(width));
        assert(value * scale == value) by (nonlinear_arith)
            requires
                scale == 1,
        ;
    }
}

/// The canonical text of an amount is a literal of that same amount: writing
/// and reading back loses nothing.
pub proof fn lemma_format_then_parse(units: int)
    requires
        Money::fits(units),
    ensures
        Money::parse_spec(canonical_text(units)) == Ok::<int, ParseError>(units),
{
    let magnitude = if units < 0 {
        -units
    } else {
        units
    };
    let whole = digits_of((magnitude / SCALE as int) as nat);
    let f = (magnitude % SCALE as int) as nat;
    let fraction = fraction_text(f, FRACTION_DIGITS as nat);
    let s = canonical_text(units);
    let body = if f == 0 {
        whole
    } else {
        whole + seq!['.'] + fraction
    };
    lemma_digits_of_value((magnitude / SCALE as int) as nat);
    assert(pow10(FRACTION_DIGITS as nat) == 10_000) by {
        reveal_with_fuel(pow10, 5);
    }
    lemma_fraction_text(f, FRACTION_DIGITS as nat);
    assert(literal_body(s) =~= body);
    let p = whole.len() as int;
    assert forall|j: int| 0 <= j < p implies body[j] != '.' by {
        assert(body[j] == whole[j]);
    }
    lemma_point_index_is(body, p);
    assert(whole_part(body) =~= whole);
    assert(fraction_part(body) =~= fraction);
}

/// Appends the fractional digits of `f` units out of ten to the power `width`.
fn push_fraction(out: &mut String, f: u64, width: usize)
    ensures
        final(out)@ == old(out)@ + fraction_text(f as nat, width as nat),
    decreases width,
{
    if width == 0 || f == 0 {
    } else if f % 10 == 0 {
        push_fraction(out, f / 10, width - 1);
    } else {
        push_padded_digits(out, f, width);
    }
}

/// An amount is known by its ten-thousandths.
pub proof fn lemma_money_of(units: int)
    requires
        Money::fits(units),
    ensures
        Money::of(units)@ == units,
        forall|amount: Money| amount@ == units ==> amount == Money::of(units),
{
}

/// Reading a literal rounds nothing: with `k` digits after its point, the
/// literal stands for its digits, taken as one number, over ten to the power
/// `k`, and the amount read is that many ten-thousandths exactly.
pub proof fn lemma_literal_is_exact(s: Seq<char>)
    requires
        is_literal(s),
        fraction_part(literal_body(s)).len() <= FRACTION_DIGITS,
    ensures
        ({
            let body = literal_body(s);
            let digits = decimal_value(whole_part(body) + fraction_part(body));
            let k = fraction_part(body).len();
            literal_units(s) * pow10(k) == (if is_negative(s) {
                -digits
            } else {
                digits as int
            }) * SCALE
        }),
{
    let body = literal_body(s);
    let whole = decimal_value(whole_part(body));
    let fraction = decimal_value(fraction_part(body));
    let k = fraction_part(body).len();
    let up = pow10(k);
    let down = pow10((FRACTION_DIGITS - k) as nat);
    lemma_decimal_value_concat(whole_part(body), fraction_part(body));
    assert(up * down == SCALE) by {
        reveal_with_fuel(pow10, 5);
        if k == 0 {
            assert(up == 1 && down == 10_000);
        } else if k == 1 {
            assert(up == 10 && down == 1_000);
        } else if k == 2 {
            assert(up == 100 && down == 100);
        } else if k == 3 {
            assert(up == 1_000 && down == 10);
        } else {
            assert(up == 10_000 && down == 1);
        }
    }
    assert((whole * SCALE + fraction * down) * up == (whole * up + fraction) * SCALE)
        by (nonlinear_arith)
        requires
            up * down == SCALE,
    ;
    assert((-(whole * SCALE + fraction * down)) * up == (-(whole * up + fraction)) * SCALE)
        by (nonlinear_arith)
        requires
            up * down == SCALE,
    ;
}

/// Sums and differences round nothing: they are those of the ten-thousandths.
/// So an amount that is added and then taken away leaves what was there, and
/// the order in which amounts are added does not matter.
pub proof fn lemma_arithmetic_is_exact(a: Money, b: Money, c: Money)
    ensures
        Money::fits(a@ + b@) ==> Money::fits((a@ + b@) - b@) && (a@ + b@) - b@ == a@,
        Money::fits(a@ - b@) ==> Money::fits((a@ - b@) + b@) && (a@ - b@) + b@ == a@,
        (a@ + b@) + c@ == a@ + (b@ + c@),
        a@ + b@ == b@ + a@,
{
}

/// Every amount is one that can be held.
pub proof fn lemma_money_fits(amount: Money)
    ensures
        Money::fits(amount@),
{
}

/// The most that can stand before the point of an amount: beyond it the
/// ten-thousandths no longer fit.
const WHOLE_MAX: u64 = 922_337_203_685_477;

/// A literal holds ASCII characters only.
proof fn lemma_literal_is_ascii(s: Seq<char>)
    requires
        !vstd::utf8::is_ascii_chars(s),
    ensures
        !is_literal(s),
{
    let body = literal_body(s);
    let i = choose|i: int| 0 <= i < s.len() && !('\0' <= #[trigger] s[i] <= '\u{7f}');
    let b = if is_signed(s) {
        i - 1
    } else {
        i
    };
    lemma_point_index(body);
    let p = point_index(body);
    if b < p {
        assert(!is_digit(whole_part(body)[b]));
    } else {
        assert(!is_digit(fraction_part(body)[b - p - 1]));
    }
}

impl Money {
    /// Whether `units` ten-thousandths can be held.
    pub open spec fn fits(units: int) -> bool {
        i64::MIN <= units <= i64::MAX
    }

    /// The amount of `units` ten-thousandths, where they can be held.
    pub closed spec fn of(units: int) -> Money
        recommends
            Money::fits(units),
    {
        Money { units: units as i64 }
    }

    /// What a text denotes as an amount, in ten-thousandths.
    pub open spec fn parse_spec(s: Seq<char>) -> Result<int, ParseError> {
        if !is_literal(s) {
            Err(ParseError::Malformed)
        } else if fraction_part(literal_body(s)).len() > FRACTION_DIGITS {
            Err(ParseError::TooPrecise)
        } else if !Money::fits(literal_units(s)) {
            Err(ParseError::OutOfRange)
        } else {
            Ok(literal_units(s))
        }
    }

    /// Reads the literal of an amount: an optional sign, then digits with at
    /// most one point among them, at least one digit, and at most four digits
    /// after the point. The amount is exactly what the literal denotes.
    pub fn parse(text: &str) -> (r: Result<Money, ParseError>)
        ensures
            match Money::parse_spec(text@) {
                Ok(units) => r == Ok::<Money, ParseError>(Money::of(units)) && r->Ok_0@ == units,
                Err(error) => r == Err::<Money, ParseError>(error),
            },
    {
        let ghost s = text@;
        let ghost body = literal_body(s);
        let bytes = match ascii_bytes(text) {
            Some(bytes) => bytes,
            None => {
                proof {
                    lemma_literal_is_ascii(s);
                }
                return Err(ParseError::Malformed);
            },
        };
        let n = bytes.len();
        let negative = n > 0 && bytes[0] == 45;
        let start: usize = if n > 0 && (bytes[0] == 43 || bytes[0] == 45) {
            1
        } else {
            0
        };

        // The digits before the point.
        let mut whole: u64 = 0;
        let mut huge = false;
        let mut i: usize = start;
        while i < n && 48 <= bytes[i] && bytes[i] <= 57
            invariant
                start <= i <= n,
                n == s.len(),
                bytes@.len() == n,
                body == s.skip(start as int),
                forall|j: int| 0 <= j < n ==> (#[trigger] bytes@[j]) as int == s[j] as int,
                all_digits(body.take(i - start)),
                !huge ==> whole == decimal_value(body.take(i - start)) && whole <= WHOLE_MAX,
                huge ==> decimal_value(body.take(i - start)) > WHOLE_MAX,
            decreases n - i,
        {
            let ghost prefix = body.take(i - start);
            proof {
                assert(body.take(i + 1 - start) =~= prefix.push(body[i - start]));
                lemma_decimal_value_push(prefix, body[i - start]);
            }
            if !huge {
                let next = whole * 10 + (bytes[i] - 48) as u64;
                if next > WHOLE_MAX {
                    huge = true;
                } else {
                    whole = next;
                }
            }
            i += 1;
        }
        let whole_len = i - start;
        let ghost p = (i - start) as int;
        assert forall|j: int| 0 <= j < p implies body[j] != '.' by {
            assert(is_digit(body.take(p)[j]));
        }
        if i < n && bytes[i] != 46 {
            proof {
                lemma_point_index(body);
                assert(whole_part(body)[p] == body[p]);
            }
            return Err(ParseError::Malformed);
        }
        proof {
            lemma_point_index_is(body, p);
        }
        let ghost fraction = fraction_part(body);

        // The digits after the point.
        let mut frac: u64 = 0;
        let mut count: usize = 0;
        if i < n {
            let first = i + 1;
            let mut j: usize = first;
            while j < n && 48 <= bytes[j] && bytes[j] <= 57
                invariant
                    first <= j <= n,
                    n == s.len(),
                    bytes@.len() == n,
                    fraction == s.skip(first as int),
                    forall|k: int| 0 <= k < n ==> (#[trigger] bytes@[k]) as int == s[k] as int,
                    count == j - first,
                    all_digits(fraction.take(count as int)),
                    count <= FRACTION_DIGITS ==> frac == decimal_value(fraction.take(count as int))
                        && frac < pow10(count as nat),
                decreases n - j,
            {
                let ghost prefix = fraction.take(count as int);
                proof {
                    assert(fraction.take(count + 1) =~= prefix.push(fraction[count as int]));
                    lemma_decimal_value_push(prefix, fraction[count as int]);
                    reveal_with_fuel(pow10, 5);
                }
                if count < FRACTION_DIGITS {
                    frac = frac * 10 + (bytes[j] - 48) as u64;
                }
                count += 1;
                j += 1;
            }
            if j < n {
                assert(!is_digit(fraction[count as int]));
                return Err(ParseError::Malformed);
            }
            assert(fraction.take(count as int) =~= fraction);
        }
        if whole_len == 0 && count == 0 {
            return Err(ParseError::Malformed);
        }
        if count > FRACTION_DIGITS {
            return Err(ParseError::TooPrecise);
        }
        // Bring the fraction to ten-thousandths.
        assert(frac == decimal_value(fraction) && frac < pow10(count as nat)) by {
            reveal_with_fuel(pow10, 2);
        }
        assert(pow10(0) == 1);
        assert(frac == decimal_value(fraction) * pow10(0));
        let mut k: usize = count;
        while k < FRACTION_DIGITS
            invariant
                count <= k <= FRACTION_DIGITS,
                frac == decimal_value(fraction) * pow10((k - count) as nat),
                frac < pow10(k as nat),
            decreases FRACTION_DIGITS - k,
        {
            proof {
                reveal_with_fuel(pow10, 5);
                assert(decimal_value(fraction) * (10 * pow10((k - count) as nat)) == 10 * (
                decimal_value(fraction) * pow10((k - count) as nat))) by (nonlinear_arith);
            }
            frac = frac * 10;
            k += 1;
        }
        assert(frac < 10_000) by {
            reveal_with_fuel(pow10, 5);
        }
        if huge {
            assert(decimal_value(whole_part(body)) * SCALE >= (WHOLE_MAX + 1) * SCALE)
                by (nonlinear_arith)
                requires
                    decimal_value(whole_part(body)) >= WHOLE_MAX + 1,
                    SCALE > 0,
            ;
            return Err(ParseError::OutOfRange);
        }
        let magnitude: i128 = whole as i128 * 10_000 + frac as i128;
        let units: i128 = if negative {
            -magnitude
        } else {
            magnitude
        };
        if units < i64::MIN as i128 || units > i64::MAX as i128 {
            return Err(ParseError::OutOfRange);
        }
        Ok(Money { units: units as i64 })
    }

    /// Writes the amount in its canonical form: `22` for twenty-two wholes,
    /// `9.9101`, `-0.5`.
    pub fn format(&self) -> (r: String)
        ensures
            r@ == canonical_text(self@),
    {
        let mut out = String::new();
        let magnitude: u64 = if self.units < 0 {
            out.append("-");
            (-(self.units as i128)) as u64
        } else {
            self.units as u64
        };
        proof {
            reveal_strlit("-");
            reveal_strlit(".");
        }
        push_digits(&mut out, magnitude / 10_000);
        let f = magnitude % 10_000;
        if f != 0 {
            out.append(".");
            push_fraction(&mut out, f, FRACTION_DIGITS);
        }
        out
    }

    /// The amount of nothing.
    pub fn zero() -> (r: Money)
        ensures
            r@ == 0,
    {
        Money { units: 0 }
    }

    /// The amount of `units` ten-thousandths.
    pub fn from_units(units: i64) -> (r: Money)
        ensures
            r@ == units,
    {
        Money { units }
    }

    /// The amount in ten-thousandths.
    pub fn units(&self) -> (r: i64)
        ensures
            r == self@,
    {
        self.units
    }

    /// The exact sum.
    pub fn add(self, rhs: Money) -> (r: Money)
        requires
            Money::fits(self@ + rhs@),
        ensures
            r@ == self@ + rhs@,
    {
        Money { units: self.units + rhs.units }
    }

    /// The exact difference; it is negative where `rhs` is the greater.
    pub fn sub(self, rhs: Money) -> (r: Money)
        requires
            Money::fits(self@ - rhs@),
        ensures
            r@ == self@ - rhs@,
    {
        Money { units: self.units - rhs.units }
    }

    /// The exact sum, where it can be held.
    pub fn checked_add(self, rhs: Money) -> (r: Option<Money>)
        ensures
            match r {
                Some(sum) => sum@ == self@ + rhs@,
                None => !Money::fits(self@ + rhs@),
            },
    {
        match self.units.checked_add(rhs.units) {
            Some(units) => Some(Money { units }),
            None => None,
        }
    }

    /// The exact difference, where it can be held.
    pub fn checked_sub(self, rhs: Money) -> (r: Option<Money>)
        ensures
            match r {
                Some(difference) => difference@ == self@ - rhs@,
                None => !Money::fits(self@ - rhs@),
            },
    {
        match self.units.checked_sub(rhs.units) {
            Some(units) => Some(Money { units }),
            None => None,
        }
    }
}

} // verus!
