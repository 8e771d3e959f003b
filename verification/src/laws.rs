//! Laws that hold of parsing, stated over what parsing means.

use crate::chars::{is_digit, is_longest_run, lemma_longest_run_is_run, Pattern};
use crate::content::{Content, ContentView};
use crate::error::{expected_real, Error};
use crate::grammar::{
    char_at, document, document_at, get_natural_at, get_real_at, get_token_at,
    lemma_reals_advance, peek_at, real_at, reals_at, rows_at, statement_at, table_at, token_at,
    Failure,
};
use crate::numbers::{all_digits, field_end, id_of, natural_of};
use crate::parser::parsed;
use vstd::prelude::*;

verus! {

/// Parsing depends on nothing but the text: whatever two runs on one text
/// return, the two results hold the same content, or the same error.
pub proof fn lemma_parsing_is_repeatable(
    text: Seq<char>,
    first: Result<Content, Error>,
    second: Result<Content, Error>,
)
    requires
        parsed(first) == document(text),
        parsed(second) == document(text),
    ensures
        parsed(first) == parsed(second),
{
}

/// Whether `name` can stand as an identifier: a letter, followed by
/// letters, digits and underscores.
pub open spec fn is_identifier(name: Seq<char>) -> bool {
    &&& name.len() > 0
    &&& forall|i: int| 0 <= i < name.len() ==> Pattern::Token.accepts(i, #[trigger] name[i])
}

/// A document that is nothing but an `@`, a name, a space and a natural
/// number holds one attribute, which binds the name to the number, and no
/// graph and no table.
pub proof fn lemma_single_attribute(name: Seq<char>, digits: Seq<char>)
    requires
        is_identifier(name),
        natural_of(digits) is Some,
    ensures
        document(seq!['@'] + name + seq![' '] + digits) == Ok::<ContentView, Failure>(
            ContentView {
                attributes: Map::empty().insert(name, natural_of(digits)->0),
                graphs: Seq::empty(),
                tables: Seq::empty(),
            },
        ),
{
    let s = seq!['@'] + name + seq![' '] + digits;
    let n = name.len() as int;
    let m = digits.len() as int;
    assert(s.len() == n + m + 2);
    assert(s[0] == '@');
    assert forall|k: int| 0 <= k < n implies s[1 + k] == name[k] by {}
    assert(s[1 + n] == ' ');
    assert forall|k: int| 0 <= k < m implies s[2 + n + k] == digits[k] by {}
    assert(Pattern::Token.accepts(0, name[0]));
    assert(is_longest_run(s, Pattern::Void, 1, 0));
    lemma_longest_run_is_run(s, Pattern::Void, 1, 0);
    assert(is_longest_run(s, Pattern::Token, 1, n)) by {
        assert forall|k: int| 0 <= k < n implies #[trigger] Pattern::Token.accepts(
            k,
            s[1 + k],
        ) by {
            assert(Pattern::Token.accepts(k, name[k]));
        }
    }
    lemma_longest_run_is_run(s, Pattern::Token, 1, n);
    assert(s.subrange(1, 1 + n) =~= name);
    assert(is_longest_run(s, Pattern::Void, 1 + n, 1)) by {
        assert(is_digit(digits[0]));
    }
    lemma_longest_run_is_run(s, Pattern::Void, 1 + n, 1);
    assert(is_longest_run(s, Pattern::Natural, 2 + n, m)) by {
        assert forall|k: int| 0 <= k < m implies #[trigger] Pattern::Natural.accepts(
            k,
            s[2 + n + k],
        ) by {
            assert(is_digit(digits[k]));
        }
    }
    lemma_longest_run_is_run(s, Pattern::Natural, 2 + n, m);
    assert(s.subrange(2 + n, 2 + n + m) =~= digits);
    assert(is_longest_run(s, Pattern::Void, 2 + n + m, 0));
    lemma_longest_run_is_run(s, Pattern::Void, 2 + n + m, 0);
    assert(char_at(s, 0, '@') == (Ok::<(), Seq<char>>(()), 1int));
    assert(token_at(s, 1) == (Some(name), 2 + n));
    assert(get_token_at(s, 1) == (Ok::<Seq<char>, Seq<char>>(name), 2 + n));
    assert(get_natural_at(s, 2 + n) == (
        Ok::<usize, Seq<char>>(natural_of(digits)->0),
        2 + n + m,
    ));
    assert(peek_at(s, 2 + n + m) is None);
    let first = statement_at(s, 0, ContentView::empty());
    assert(first.result is Ok);
    assert(first.end == s.len());
    assert(document_at(s, first.end, first.content).result is Ok);
    assert(document_at(s, first.end, first.content).content == first.content);
}

/// A run of numbers that breaks off before `n` numbers are read is an
/// error: a real number was expected where the next one should stand.
pub proof fn lemma_short_run_fails(s: Seq<char>, at: int, n: nat, k: nat)
    requires
        k < n,
        reals_at(s, at, k).0 is Ok,
        real_at(s, reals_at(s, at, k).1).0 is None,
    ensures
        reals_at(s, at, n) == (
            Err::<Seq<Seq<char>>, Seq<char>>(expected_real()),
            real_at(s, reals_at(s, at, k).1).1,
        ),
    decreases k,
{
    if k > 0 {
        let (first, a) = get_real_at(s, at);
        lemma_short_run_fails(s, a, (n - 1) as nat, (k - 1) as nat);
    }
}

/// A row of a table with fewer numbers than the table has columns is an
/// error, raised where the missing number should stand: no row is cut
/// short in silence.
pub proof fn lemma_short_row_fails(s: Seq<char>, at: int, width: nat, k: nat)
    requires
        k < width,
        peek_at(s, at) is Some,
        peek_at(s, at) != Some('}'),
        reals_at(s, at, k).0 is Ok,
        real_at(s, reals_at(s, at, k).1).0 is None,
    ensures
        rows_at(s, at, width) == (
            Err::<Seq<Seq<Seq<char>>>, Seq<char>>(expected_real()),
            real_at(s, reals_at(s, at, k).1).1,
        ),
{
    lemma_short_run_fails(s, at, width, k);
}

/// The rows of a table fail for one reason only: a real number was
/// expected.
pub proof fn lemma_rows_fail_for_a_number(s: Seq<char>, at: int, width: nat)
    ensures
        rows_at(s, at, width).0 matches Err(message) ==> message == expected_real(),
    decreases s.len() - at,
{
    if !(width == 0 || peek_at(s, at) is None || peek_at(s, at) == Some('}')) {
        lemma_reals_fail_for_a_number(s, at, width);
        lemma_reals_advance(s, at, width);
        let (row, a) = reals_at(s, at, width);
        if row is Ok {
            lemma_rows_fail_for_a_number(s, a, width);
        }
    }
}

proof fn lemma_reals_fail_for_a_number(s: Seq<char>, at: int, n: nat)
    ensures
        reals_at(s, at, n).0 matches Err(message) ==> message == expected_real(),
    decreases n,
{
    if n > 0 {
        let (first, a) = get_real_at(s, at);
        if first is Ok {
            lemma_reals_fail_for_a_number(s, a, (n - 1) as nat);
        }
    }
}

/// Where no underscore stands from `start` up to `end`, and the text ends
/// at `end` or has an underscore there, the field that starts at `start`
/// ends at `end`.
proof fn lemma_field_end(s: Seq<char>, start: int, end: int)
    requires
        0 <= start <= end <= s.len(),
        forall|i: int| start <= i < end ==> #[trigger] s[i] != '_',
        end == s.len() || s[end] == '_',
    ensures
        field_end(s, start) == end,
    decreases end - start,
{
    if start < end {
        lemma_field_end(s, start + 1, end);
    }
}

/// An identifier without an underscore carries no id.
pub proof fn lemma_id_needs_an_underscore(token: Seq<char>)
    requires
        forall|i: int| 0 <= i < token.len() ==> #[trigger] token[i] != '_',
    ensures
        id_of(token) is None,
{
    lemma_field_end(token, 0, token.len() as int);
}

/// The id of an identifier is the number that its digits spell out between
/// the first underscore and the second; what comes behind the second
/// underscore does not count.
pub proof fn lemma_id_follows_the_underscore(
    prefix: Seq<char>,
    digits: Seq<char>,
    rest: Seq<char>,
)
    requires
        forall|i: int| 0 <= i < prefix.len() ==> #[trigger] prefix[i] != '_',
        all_digits(digits),
        rest.len() == 0 || rest[0] == '_',
    ensures
        id_of(prefix + seq!['_'] + digits + rest) == natural_of(digits),
{
    let s = prefix + seq!['_'] + digits + rest;
    let first = prefix.len() as int;
    let second = first + 1 + digits.len();
    assert forall|i: int| 0 <= i < first implies #[trigger] s[i] != '_' by {
        assert(s[i] == prefix[i]);
    }
    assert(s[first] == '_');
    assert forall|i: int| first + 1 <= i < second implies #[trigger] s[i] != '_' by {
        assert(s[i] == digits[i - first - 1]);
        assert(is_digit(digits[i - first - 1]));
    }
    if rest.len() > 0 {
        assert(s[second] == rest[0]);
    }
    lemma_field_end(s, 0, first);
    lemma_field_end(s, first + 1, second);
    assert(s.subrange(first + 1, second) =~= digits);
}

/// The columns of a table that was read are equally long: each holds one
/// number of every row.
pub proof fn lemma_columns_are_equally_long(s: Seq<char>, at: int, name: Seq<char>, id: usize)
    ensures
        table_at(s, at, name, id).0 matches Ok(table) ==> forall|i: int, j: int|
            0 <= i < table.columns.len() && 0 <= j < table.columns.len() ==> (
            #[trigger] table.columns[i]).data.len() == (#[trigger] table.columns[j]).data.len(),
{
}

} // verus!
