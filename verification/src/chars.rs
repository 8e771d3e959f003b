//! Character classes, the acceptance rules built from them, and maximal runs
//! of accepted characters.

use vstd::prelude::*;
use vstd::std_specs::iter::IteratorSpec;

verus! {

/// A blank: space, tab or newline.
pub open spec fn is_void(c: char) -> bool {
    c == ' ' || c == '\t' || c == '\n'
}

/// An ASCII letter.
pub open spec fn is_letter(c: char) -> bool {
    ('A' <= c && c <= 'Z') || ('a' <= c && c <= 'z')
}

/// An ASCII decimal digit.
pub open spec fn is_digit(c: char) -> bool {
    '0' <= c && c <= '9'
}

/// A character that may occur in the text of a real number.
pub open spec fn is_real_char(c: char) -> bool {
    is_digit(c) || c == '+' || c == '-' || c == '.' || c == 'e' || c == 'E'
}

/// What a run of characters may consist of. A rule judges a character
/// together with its index within the run.
pub enum Pattern {
    /// Blanks.
    Void,
    /// A `#` followed by dashes.
    Comment,
    /// A letter followed by letters, digits and underscores.
    Token,
    /// Decimal digits.
    Natural,
    /// Digits, signs, the decimal point and the exponent mark.
    Real,
    /// The given text, position by position.
    Literal(Seq<char>),
}

impl Pattern {
    /// Whether the rule admits `c` as the `i`-th character of a run.
    pub open spec fn accepts(self, i: int, c: char) -> bool {
        match self {
            Pattern::Void => is_void(c),
            Pattern::Comment => (i == 0 && c == '#') || (i > 0 && c == '-'),
            Pattern::Token => is_letter(c) || (i > 0 && (c == '_' || is_digit(c))),
            Pattern::Natural => is_digit(c),
            Pattern::Real => is_real_char(c),
            Pattern::Literal(text) => 0 <= i < text.len() && c == text[i],
        }
    }
}

/// A rule as the parser holds it; its view is the [`Pattern`].
pub enum Rule<'a> {
    /// Blanks.
    Void,
    /// A `#` followed by dashes.
    Comment,
    /// A letter followed by letters, digits and underscores.
    Token,
    /// Decimal digits.
    Natural,
    /// Digits, signs, the decimal point and the exponent mark.
    Real,
    /// The given text, position by position.
    Literal(&'a Vec<char>),
}

impl<'a> View for Rule<'a> {
    type V = Pattern;

    open spec fn view(&self) -> Pattern {
        match self {
            Rule::Void => Pattern::Void,
            Rule::Comment => Pattern::Comment,
            Rule::Token => Pattern::Token,
            Rule::Natural => Pattern::Natural,
            Rule::Real => Pattern::Real,
            Rule::Literal(text) => Pattern::Literal(text@),
        }
    }
}

/// Decides whether `c` is a blank.
pub fn void(c: char) -> (b: bool)
    ensures
        b == is_void(c),
{
    c == ' ' || c == '\t' || c == '\n'
}

/// Decides whether `c` is an ASCII letter.
pub fn letter(c: char) -> (b: bool)
    ensures
        b == is_letter(c),
{
    (c >= 'A' && c <= 'Z') || (c >= 'a' && c <= 'z')
}

/// Decides whether `c` is an ASCII decimal digit.
pub fn digit(c: char) -> (b: bool)
    ensures
        b == is_digit(c),
{
    c >= '0' && c <= '9'
}

impl<'a> Rule<'a> {
    /// Decides whether `c` may stand at index `i` of a run.
    pub fn accepts(&self, i: usize, c: char) -> (b: bool)
        ensures
            b == self@.accepts(i as int, c),
    {
        match self {
            Rule::Void => void(c),
            Rule::Comment => (i == 0 && c == '#') || (i > 0 && c == '-'),
            Rule::Token => letter(c) || (i > 0 && (c == '_' || digit(c))),
            Rule::Natural => digit(c),
            Rule::Real => digit(c) || c == '+' || c == '-' || c == '.' || c == 'e' || c == 'E',
            Rule::Literal(text) => i < text.len() && c == text[i],
        }
    }
}

/// The number of characters that a run of `p` starting at `start` still
/// takes once its first `k` characters have been taken.
pub open spec fn run_from(s: Seq<char>, p: Pattern, start: int, k: int) -> int
    decreases s.len() - (start + k),
{
    if 0 <= start + k < s.len() && p.accepts(k, s[start + k]) {
        1 + run_from(s, p, start, k + 1)
    } else {
        0
    }
}

/// The length of the longest run of `p` in `s` that starts at `start`.
pub open spec fn run(s: Seq<char>, p: Pattern, start: int) -> int {
    run_from(s, p, start, 0)
}

/// Trusted of std: `String::push` appends the character to the end of the
/// string and leaves the rest of it as it was.
pub assume_specification[ String::push ](text: &mut String, c: char)
    ensures
        final(text)@ == old(text)@.push(c),
;

/// Decides whether two texts are made of the same characters.
pub fn same_text(a: &str, b: &str) -> (r: bool)
    ensures
        r == (a@ == b@),
{
    let mut x = a.chars();
    let mut y = b.chars();
    let ghost mut n: int = 0;
    loop
        invariant
            0 <= n <= a@.len(),
            n <= b@.len(),
            a@.take(n) == b@.take(n),
            x.remaining() == a@.skip(n),
            y.remaining() == b@.skip(n),
            x.obeys_prophetic_iter_laws(),
            y.obeys_prophetic_iter_laws(),
        decreases a@.len() - n,
    {
        match (x.next(), y.next()) {
            (None, None) => {
                assert(a@ =~= a@.take(n));
                assert(b@ =~= b@.take(n));
                return true;
            },
            (Some(c), Some(d)) => {
                if c != d {
                    assert(a@[n] != b@[n]);
                    return false;
                }
                proof {
                    assert(a@.take(n + 1) =~= a@.take(n).push(a@[n]));
                    assert(b@.take(n + 1) =~= b@.take(n).push(b@[n]));
                    assert(a@.skip(n).drop_first() =~= a@.skip(n + 1));
                    assert(b@.skip(n).drop_first() =~= b@.skip(n + 1));
                    n = n + 1;
                }
            },
            _ => {
                return false;
            },
        }
    }
}

/// Measures the longest run of `rule` in `chars` that starts at `start`.
pub(crate) fn run_length(chars: &Vec<char>, rule: &Rule, start: usize) -> (n: usize)
    requires
        start <= chars.len(),
    ensures
        n == run(chars@, rule@, start as int),
        start + n <= chars.len(),
{
    let mut n: usize = 0;
    while start + n < chars.len() && rule.accepts(n, chars[start + n])
        invariant
            start + n <= chars.len(),
            n + run_from(chars@, rule@, start as int, n as int) == run(
                chars@,
                rule@,
                start as int,
            ),
        decreases chars.len() - n,
    {
        n += 1;
    }
    n
}

/// States that `n` characters from `start` on form a run of `p` that cannot
/// be made longer.
pub open spec fn is_longest_run(s: Seq<char>, p: Pattern, start: int, n: int) -> bool {
    &&& 0 <= n
    &&& start + n <= s.len()
    &&& forall|k: int| 0 <= k < n ==> #[trigger] p.accepts(k, s[start + k])
    &&& (start + n == s.len() || !p.accepts(n, s[start + n]))
}

proof fn lemma_run_from(s: Seq<char>, p: Pattern, start: int, k: int)
    requires
        0 <= start,
        0 <= k,
        start + k <= s.len(),
    ensures
        0 <= run_from(s, p, start, k),
        start + k + run_from(s, p, start, k) <= s.len(),
        forall|j: int| k <= j < k + run_from(s, p, start, k) ==> #[trigger] p.accepts(j, s[start + j]),
        start + k + run_from(s, p, start, k) == s.len() || !p.accepts(
            k + run_from(s, p, start, k),
            s[start + k + run_from(s, p, start, k)],
        ),
    decreases s.len() - (start + k),
{
    if start + k < s.len() && p.accepts(k, s[start + k]) {
        lemma_run_from(s, p, start, k + 1);
    }
}

/// The run that [`run`] measures is the longest one.
pub proof fn lemma_run_is_longest(s: Seq<char>, p: Pattern, start: int)
    requires
        0 <= start <= s.len(),
    ensures
        is_longest_run(s, p, start, run(s, p, start)),
{
    lemma_run_from(s, p, start, 0);
}

proof fn lemma_run_from_unique(s: Seq<char>, p: Pattern, start: int, k: int, n: int)
    requires
        0 <= start,
        0 <= k <= n,
        is_longest_run(s, p, start, n),
    ensures
        k + run_from(s, p, start, k) == n,
    decreases n - k,
{
    if k < n {
        assert(p.accepts(k, s[start + k]));
        lemma_run_from_unique(s, p, start, k + 1, n);
    }
}

/// There is only one longest run from a given start.
pub proof fn lemma_longest_run_is_run(s: Seq<char>, p: Pattern, start: int, n: int)
    requires
        0 <= start,
        is_longest_run(s, p, start, n),
    ensures
        run(s, p, start) == n,
{
    lemma_run_from_unique(s, p, start, 0, n);
}

/// The number of newlines in `s`.
pub open spec fn newlines(s: Seq<char>) -> nat
    decreases s.len(),
{
    if s.len() == 0 {
        0
    } else {
        newlines(s.drop_last()) + if s.last() == '\n' {
            1nat
        } else {
            0nat
        }
    }
}

/// The line on which the character at `offset` stands: one more than the
/// number of newlines before it.
pub open spec fn line_at(s: Seq<char>, offset: int) -> nat {
    1 + newlines(s.take(offset))
}

/// A text has no more newlines than characters.
pub proof fn lemma_newlines_bound(s: Seq<char>)
    ensures
        newlines(s) <= s.len(),
    decreases s.len(),
{
    if s.len() > 0 {
        lemma_newlines_bound(s.drop_last());
    }
}

/// Passing one character advances the line exactly when it is a newline.
pub proof fn lemma_line_step(s: Seq<char>, offset: int)
    requires
        0 <= offset < s.len(),
    ensures
        line_at(s, offset + 1) == line_at(s, offset) + if s[offset] == '\n' {
            1nat
        } else {
            0nat
        },
{
    let t = s.take(offset + 1);
    assert(t.drop_last() =~= s.take(offset));
    assert(t.last() == s[offset]);
}

} // verus!
