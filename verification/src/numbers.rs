//! Natural numbers written in decimal, and the numeric ids that identifiers
//! carry after their first underscore.

use crate::chars::{digit, is_digit};
use vstd::prelude::*;

verus! {

/// The characters of `text`, one by one.
pub fn chars_of(text: &str) -> (chars: Vec<char>)
    ensures
        chars@ == text@,
{
    let mut chars: Vec<char> = Vec::new();
    for c in it: text.chars()
        invariant
            it.seq() == text@,
            chars@ == it.seq().take(it.index() as int),
    {
        chars.push(c);
    }
    chars
}

/// The value of a decimal digit.
pub open spec fn digit_value(c: char) -> nat {
    (c as int - '0' as int) as nat
}

/// The number that a sequence of decimal digits denotes; the empty sequence
/// denotes zero.
pub open spec fn decimal_value(s: Seq<char>) -> nat
    decreases s.len(),
{
    if s.len() == 0 {
        0
    } else {
        10 * decimal_value(s.drop_last()) + digit_value(s.last())
    }
}

pub open spec fn all_digits(s: Seq<char>) -> bool {
    forall|i: int| 0 <= i < s.len() ==> is_digit(#[trigger] s[i])
}

/// The number that `s` spells out in 64 bits: `s` must be a non-empty
/// sequence of decimal digits whose value fits.
pub open spec fn decimal_of(s: Seq<char>) -> Option<u64> {
    if s.len() > 0 && all_digits(s) && decimal_value(s) <= u64::MAX {
        Some(decimal_value(s) as u64)
    } else {
        None
    }
}

/// The natural number that `s` spells out: `s` must be a non-empty sequence
/// of decimal digits whose value fits the machine word.
pub open spec fn natural_of(s: Seq<char>) -> Option<usize> {
    if s.len() > 0 && all_digits(s) && decimal_value(s) <= usize::MAX {
        Some(decimal_value(s) as usize)
    } else {
        None
    }
}

/// The value of a prefix never exceeds the value of the whole.
pub proof fn lemma_decimal_value_grows(s: Seq<char>, n: int)
    requires
        0 <= n <= s.len(),
    ensures
        decimal_value(s.take(n)) <= decimal_value(s),
    decreases s.len() - n,
{
    if n < s.len() {
        lemma_decimal_value_grows(s, n + 1);
        assert(s.take(n + 1).drop_last() =~= s.take(n));
    } else {
        assert(s.take(n) =~= s);
    }
}

/// Reads the characters of `chars` from `from` up to `to` as a number of 64
/// bits.
pub(crate) fn decimal_between(chars: &Vec<char>, from: usize, to: usize) -> (r: Option<u64>)
    requires
        from <= to <= chars.len(),
    ensures
        r == decimal_of(chars@.subrange(from as int, to as int)),
{
    let ghost s = chars@.subrange(from as int, to as int);
    if from == to {
        return None;
    }
    let mut value: u64 = 0;
    let mut i: usize = from;
    while i < to
        invariant
            from <= i <= to <= chars.len(),
            s == chars@.subrange(from as int, to as int),
            all_digits(s.take(i - from)),
            value == decimal_value(s.take(i - from)),
        decreases to - i,
    {
        let c = chars[i];
        let ghost next = s.take(i - from + 1);
        proof {
            assert(next.drop_last() =~= s.take(i - from));
            assert(next.last() == c);
            lemma_decimal_value_grows(s, i - from + 1);
        }
        if !digit(c) {
            assert(!is_digit(s[i - from]));
            return None;
        }
        let d: u64 = (c as u32 - '0' as u32) as u64;
        let shifted = match value.checked_mul(10) {
            Some(v) => v,
            None => {
                return None;
            },
        };
        value = match shifted.checked_add(d) {
            Some(v) => v,
            None => {
                return None;
            },
        };
        i += 1;
    }
    proof {
        assert(s.take(to - from) =~= s);
    }
    Some(value)
}

/// Reads the characters of `chars` from `from` up to `to` as a natural number.
pub(crate) fn natural_between(chars: &Vec<char>, from: usize, to: usize) -> (r: Option<usize>)
    requires
        from <= to <= chars.len(),
    ensures
        r == natural_of(chars@.subrange(from as int, to as int)),
{
    match decimal_between(chars, from, to) {
        Some(value) => {
            if value <= usize::MAX as u64 {
                Some(value as usize)
            } else {
                None
            }
        },
        None => None,
    }
}

/// Reads `text` as a natural number.
pub fn parse_natural(text: &str) -> (r: Option<usize>)
    ensures
        r == natural_of(text@),
{
    let chars = chars_of(text);
    proof {
        assert(chars@.subrange(0, chars@.len() as int) =~= text@);
    }
    natural_between(&chars, 0, chars.len())
}

/// The first position at or after `start` that holds an underscore, or the
/// length of `s` when there is none.
pub open spec fn field_end(s: Seq<char>, start: int) -> int
    decreases s.len() - start,
{
    if 0 <= start < s.len() && s[start] != '_' {
        field_end(s, start + 1)
    } else {
        start
    }
}

/// The second of the fields into which underscores divide `s`, if there is
/// one.
pub open spec fn second_field(s: Seq<char>) -> Option<Seq<char>> {
    let first = field_end(s, 0);
    if first < s.len() {
        Some(s.subrange(first + 1, field_end(s, first + 1)))
    } else {
        None
    }
}

/// The numeric id of an identifier: its second field, read as a natural
/// number. Fields after the second are ignored.
pub open spec fn id_of(s: Seq<char>) -> Option<usize> {
    match second_field(s) {
        Some(field) => natural_of(field),
        None => None,
    }
}

/// Finds the end of the field that starts at `start`.
pub(crate) fn find_field_end(chars: &Vec<char>, start: usize) -> (end: usize)
    requires
        start <= chars.len(),
    ensures
        end == field_end(chars@, start as int),
        start <= end <= chars.len(),
{
    let mut end = start;
    while end < chars.len() && chars[end] != '_'
        invariant
            start <= end <= chars.len(),
            field_end(chars@, start as int) == field_end(chars@, end as int),
        decreases chars.len() - end,
    {
        end += 1;
    }
    end
}

/// Extracts the numeric id from an identifier.
pub fn parse_id(token: &str) -> (r: Option<usize>)
    ensures
        r == id_of(token@),
{
    let chars = chars_of(token);
    let first = find_field_end(&chars, 0);
    if first < chars.len() {
        let second = find_field_end(&chars, first + 1);
        natural_between(&chars, first + 1, second)
    } else {
        None
    }
}

} // verus!
