//! Real numbers as they are written: an optional sign, decimal digits with
//! an optional decimal point, and an optional decimal exponent.
//!
//! A [`Real`] keeps the numeral itself, which denotes an exact decimal
//! number; rounding it to a machine float is left to the caller.

use crate::chars::{is_digit, lemma_run_is_longest, run, run_length, Pattern, Rule};
use crate::numbers::{all_digits, chars_of, decimal_between, decimal_value};
use vstd::prelude::*;

verus! {

pub open spec fn is_sign(c: char) -> bool {
    c == '+' || c == '-'
}

pub open spec fn is_exponent_mark(c: char) -> bool {
    c == 'e' || c == 'E'
}

/// The number of decimal digits that stand in `s` from `at` on.
pub open spec fn digits(s: Seq<char>, at: int) -> int {
    run(s, Pattern::Natural, at)
}

/// Where the digits before the decimal point start: after the sign, if any.
pub open spec fn whole_start(s: Seq<char>) -> int {
    if s.len() > 0 && is_sign(s[0]) {
        1
    } else {
        0
    }
}

/// Where the digits before the decimal point end.
pub open spec fn whole_end(s: Seq<char>) -> int {
    whole_start(s) + digits(s, whole_start(s))
}

pub open spec fn has_point(s: Seq<char>) -> bool {
    whole_end(s) < s.len() && s[whole_end(s)] == '.'
}

/// Where the digits after the decimal point start.
pub open spec fn fraction_start(s: Seq<char>) -> int {
    if has_point(s) {
        whole_end(s) + 1
    } else {
        whole_end(s)
    }
}

/// Where the digits after the decimal point end.
pub open spec fn fraction_end(s: Seq<char>) -> int {
    if has_point(s) {
        fraction_start(s) + digits(s, fraction_start(s))
    } else {
        fraction_start(s)
    }
}

/// Where the digits of the exponent start: after the exponent mark and the
/// sign that may follow it.
pub open spec fn exponent_start(s: Seq<char>) -> int {
    let after_mark = fraction_end(s) + 1;
    if after_mark < s.len() && is_sign(s[after_mark]) {
        after_mark + 1
    } else {
        after_mark
    }
}

/// Whether `s` is a real numeral: an optional sign; digits, of which a
/// decimal point may stand before, between or after, at least one digit in
/// all; and then nothing, or an exponent mark, an optional sign and one or
/// more digits up to the end.
pub open spec fn is_numeral(s: Seq<char>) -> bool {
    &&& (whole_end(s) - whole_start(s)) + (fraction_end(s) - fraction_start(s)) > 0
    &&& fraction_end(s) < s.len() ==> {
        &&& is_exponent_mark(s[fraction_end(s)])
        &&& exponent_start(s) < s.len()
        &&& exponent_start(s) + digits(s, exponent_start(s)) == s.len()
    }
}

/// Whether the numeral starts with a minus sign.
pub open spec fn is_negative(s: Seq<char>) -> bool {
    s.len() > 0 && s[0] == '-'
}

/// The digits of the numeral before its exponent, without the decimal
/// point.
pub open spec fn significand_digits(s: Seq<char>) -> Seq<char> {
    s.subrange(whole_start(s), whole_end(s)) + s.subrange(fraction_start(s), fraction_end(s))
}

/// The number that the digits of the numeral make when the decimal point is
/// left out.
pub open spec fn significand(s: Seq<char>) -> nat {
    decimal_value(significand_digits(s))
}

/// The exponent as it is written behind the exponent mark; zero for a
/// numeral without one.
pub open spec fn written_exponent(s: Seq<char>) -> int {
    if fraction_end(s) < s.len() {
        let magnitude = decimal_value(s.subrange(exponent_start(s), s.len() as int));
        if s[fraction_end(s) + 1] == '-' {
            -magnitude
        } else {
            magnitude as int
        }
    } else {
        0
    }
}

/// The power of ten by which the significand has to be multiplied: the
/// written exponent, less one for each digit behind the decimal point.
pub open spec fn exponent(s: Seq<char>) -> int {
    written_exponent(s) - (fraction_end(s) - fraction_start(s))
}

/// A decimal number: `significand` times ten to the power of `exponent`,
/// negative if `negative` is set.
#[derive(Clone, Copy, Debug, PartialEq, Eq)]
pub struct Decimal {
    pub negative: bool,
    pub significand: u64,
    pub exponent: i64,
}

/// The number that the numeral `s` denotes, where its significand and its
/// written exponent fit 64 bits and its exponent fits 64 bits with a sign.
pub open spec fn decimal_of_numeral(s: Seq<char>) -> Option<Decimal> {
    if significand(s) <= u64::MAX && -u64::MAX <= written_exponent(s) <= u64::MAX && i64::MIN
        <= exponent(s) <= i64::MAX {
        Some(
            Decimal {
                negative: is_negative(s),
                significand: significand(s) as u64,
                exponent: exponent(s) as i64,
            },
        )
    } else {
        None
    }
}

fn sign(c: char) -> (b: bool)
    ensures
        b == is_sign(c),
{
    c == '+' || c == '-'
}

/// Where the parts of a numeral lie.
pub struct Shape {
    pub whole_start: usize,
    pub whole_end: usize,
    pub fraction_start: usize,
    pub fraction_end: usize,
}

impl Shape {
    /// The shape is that of `s`.
    pub open spec fn fits(self, s: Seq<char>) -> bool {
        &&& self.whole_start == whole_start(s)
        &&& self.whole_end == whole_end(s)
        &&& self.fraction_start == fraction_start(s)
        &&& self.fraction_end == fraction_end(s)
        &&& self.whole_start <= self.whole_end <= self.fraction_start <= self.fraction_end
            <= s.len()
        &&& all_digits(s.subrange(self.whole_start as int, self.whole_end as int))
        &&& all_digits(s.subrange(self.fraction_start as int, self.fraction_end as int))
    }
}

/// The digits that run from `at` on are digits.
proof fn lemma_digits(s: Seq<char>, at: int)
    requires
        0 <= at <= s.len(),
    ensures
        0 <= digits(s, at),
        at + digits(s, at) <= s.len(),
        all_digits(s.subrange(at, at + digits(s, at))),
{
    lemma_run_is_longest(s, Pattern::Natural, at);
    let part = s.subrange(at, at + digits(s, at));
    assert forall|k: int| 0 <= k < part.len() implies is_digit(#[trigger] part[k]) by {
        assert(Pattern::Natural.accepts(k, s[at + k]));
    }
}

/// Finds the digits before and behind the decimal point.
pub fn shape_of(chars: &Vec<char>) -> (shape: Shape)
    ensures
        shape.fits(chars@),
{
    let len = chars.len();
    let whole_start: usize = if len > 0 && sign(chars[0]) {
        1
    } else {
        0
    };
    let whole = run_length(chars, &Rule::Natural, whole_start);
    let whole_end: usize = whole_start + whole;
    let mut fraction_start: usize = whole_end;
    let mut fraction_end: usize = whole_end;
    if whole_end < len && chars[whole_end] == '.' {
        fraction_start = whole_end + 1;
        fraction_end = fraction_start + run_length(chars, &Rule::Natural, fraction_start);
    }
    proof {
        lemma_digits(chars@, whole_start as int);
        lemma_digits(chars@, fraction_start as int);
        assert(chars@.subrange(fraction_start as int, fraction_start as int).len() == 0);
    }
    Shape { whole_start, whole_end, fraction_start, fraction_end }
}

/// Adds the characters of `chars` from `from` up to `to` to `out`.
fn append_between(out: &mut Vec<char>, chars: &Vec<char>, from: usize, to: usize)
    requires
        from <= to <= chars.len(),
    ensures
        final(out)@ == old(out)@ + chars@.subrange(from as int, to as int),
{
    let mut i: usize = from;
    while i < to
        invariant
            from <= i <= to <= chars.len(),
            out@ == old(out)@ + chars@.subrange(from as int, i as int),
        decreases to - i,
    {
        out.push(chars[i]);
        i += 1;
        assert(out@ =~= old(out)@ + chars@.subrange(from as int, i as int));
    }
}

/// The significand of the numeral `chars`, if it fits 64 bits.
fn significand_in(chars: &Vec<char>, shape: &Shape) -> (r: Option<u64>)
    requires
        shape.fits(chars@),
        is_numeral(chars@),
    ensures
        r == if significand(chars@) <= u64::MAX {
            Some(significand(chars@) as u64)
        } else {
            None
        },
{
    let mut all: Vec<char> = Vec::new();
    append_between(&mut all, chars, shape.whole_start, shape.whole_end);
    append_between(&mut all, chars, shape.fraction_start, shape.fraction_end);
    proof {
        assert(all@ =~= significand_digits(chars@));
        assert(all@.subrange(0, all@.len() as int) =~= all@);
    }
    decimal_between(&all, 0, all.len())
}

/// The exponent that the numeral `chars` has written behind its exponent
/// mark, if its digits fit 64 bits.
fn written_exponent_in(chars: &Vec<char>, shape: &Shape) -> (r: Option<i128>)
    requires
        shape.fits(chars@),
        is_numeral(chars@),
    ensures
        r == if -u64::MAX <= written_exponent(chars@) <= u64::MAX {
            Some(written_exponent(chars@) as i128)
        } else {
            None
        },
{
    let len = chars.len();
    if shape.fraction_end == len {
        return Some(0);
    }
    let after_mark = shape.fraction_end + 1;
    let from: usize = if sign(chars[after_mark]) {
        after_mark + 1
    } else {
        after_mark
    };
    proof {
        lemma_digits(chars@, from as int);
    }
    match decimal_between(chars, from, len) {
        Some(magnitude) => {
            if chars[after_mark] == '-' {
                Some(-(magnitude as i128))
            } else {
                Some(magnitude as i128)
            }
        },
        None => None,
    }
}

/// Decides whether `chars` form a real numeral.
pub fn numeral(chars: &Vec<char>) -> (b: bool)
    ensures
        b == is_numeral(chars@),
{
    let len = chars.len();
    let shape = shape_of(chars);
    if shape.whole_end == shape.whole_start && shape.fraction_end == shape.fraction_start {
        return false;
    }
    if shape.fraction_end == len {
        return true;
    }
    let mark = chars[shape.fraction_end];
    if !(mark == 'e' || mark == 'E') {
        return false;
    }
    let mut at: usize = shape.fraction_end + 1;
    if at < len && sign(chars[at]) {
        at += 1;
    }
    if at >= len {
        return false;
    }
    at + run_length(chars, &Rule::Natural, at) == len
}

/// A real number, kept as the numeral that was read.
#[derive(Debug, PartialEq, Eq)]
pub struct Real {
    text: String,
}

impl View for Real {
    type V = Seq<char>;

    closed spec fn view(&self) -> Seq<char> {
        self.text@
    }
}

impl Clone for Real {
    fn clone(&self) -> (r: Real)
        ensures
            r@ == self@,
    {
        proof {
            use_type_invariant(self);
        }
        Real { text: self.text.clone() }
    }
}

impl Real {
    #[verifier::type_invariant]
    spec fn well_formed(self) -> bool {
        is_numeral(self.text@)
    }

    /// Accepts `text` if it is a real numeral.
    pub fn parse(text: String) -> (r: Option<Real>)
        ensures
            r is Some <==> is_numeral(text@),
            r matches Some(number) ==> number@ == text@,
    {
        let chars = chars_of(text.as_str());
        if numeral(&chars) {
            Some(Real { text })
        } else {
            None
        }
    }

    /// The number as a significand and a power of ten, where these fit.
    pub fn decimal(&self) -> (r: Option<Decimal>)
        ensures
            r == decimal_of_numeral(self@),
    {
        proof {
            use_type_invariant(self);
        }
        let chars = chars_of(self.text.as_str());
        let shape = shape_of(&chars);
        let significand = match significand_in(&chars, &shape) {
            Some(value) => value,
            None => {
                return None;
            },
        };
        let written = match written_exponent_in(&chars, &shape) {
            Some(value) => value,
            None => {
                return None;
            },
        };
        let exponent: i128 = written - (shape.fraction_end - shape.fraction_start) as i128;
        if exponent < i64::MIN as i128 || exponent > i64::MAX as i128 {
            return None;
        }
        Some(Decimal { negative: chars[0] == '-', significand, exponent: exponent as i64 })
    }

    /// The numeral.
    pub fn as_str(&self) -> (text: &str)
        ensures
            text@ == self@,
            is_numeral(text@),
    {
        proof {
            use_type_invariant(self);
        }
        self.text.as_str()
    }
}

} // verus!
