//! What parsing means, as functions of the text and of the place in it at
//! which reading starts.
//!
//! Each function gives what is read together with the place at which
//! reading stops, whether it succeeded or not. An error is raised on the
//! line of that place.

use crate::chars::{lemma_run_is_longest, line_at, run, Pattern};
use crate::content::{Arc, ColumnView, ContentView, Deadline, GraphView, TableView, Task};
use crate::error::{
    expected_comment, expected_id, expected_literal, expected_natural, expected_real,
    expected_token, unclosed_block, unknown_statement,
};
use crate::numbers::{id_of, natural_of};
use crate::reals::is_numeral;
use vstd::prelude::*;

verus! {

/// What a required step gives: a value, or the message of the error.
pub type Attempt<T> = Result<T, Seq<char>>;

/// The character at `at`, if the text reaches that far.
pub open spec fn peek_at(s: Seq<char>, at: int) -> Option<char> {
    if 0 <= at < s.len() {
        Some(s[at])
    } else {
        None
    }
}

/// Where the blanks that start at `at` end.
pub open spec fn void_end(s: Seq<char>, at: int) -> int {
    at + run(s, Pattern::Void, at)
}

/// The longest run of `p` at `at`, if it is not empty, and where it ends.
pub open spec fn read_at(s: Seq<char>, p: Pattern, at: int) -> (Option<Seq<char>>, int) {
    let n = run(s, p, at);
    (
        if n > 0 {
            Some(s.subrange(at, at + n))
        } else {
            None
        },
        at + n,
    )
}

/// The identifier at `at`, and where the blanks after it end.
pub open spec fn token_at(s: Seq<char>, at: int) -> (Option<Seq<char>>, int) {
    let (text, end) = read_at(s, Pattern::Token, at);
    (text, void_end(s, end))
}

/// The numeric id of the identifier at `at`, and where the blanks after the
/// identifier end.
pub open spec fn id_at(s: Seq<char>, at: int) -> (Option<usize>, int) {
    let (token, end) = token_at(s, at);
    (
        match token {
            Some(token) => id_of(token),
            None => None,
        },
        end,
    )
}

/// The natural number at `at`, and where the blanks after its digits end.
pub open spec fn natural_at(s: Seq<char>, at: int) -> (Option<usize>, int) {
    let (text, end) = read_at(s, Pattern::Natural, at);
    (
        match text {
            Some(digits) => natural_of(digits),
            None => None,
        },
        void_end(s, end),
    )
}

/// The real numeral at `at`, and where the blanks after its characters end.
pub open spec fn real_at(s: Seq<char>, at: int) -> (Option<Seq<char>>, int) {
    let (text, end) = read_at(s, Pattern::Real, at);
    (
        match text {
            Some(numeral) if is_numeral(numeral) => Some(numeral),
            _ => None,
        },
        void_end(s, end),
    )
}

/// Turns a missing value into the error with the given message.
pub open spec fn required<T>(value: Option<T>, message: Seq<char>) -> Attempt<T> {
    match value {
        Some(value) => Ok(value),
        None => Err(message),
    }
}

/// The identifier that has to stand at `at`.
pub open spec fn get_token_at(s: Seq<char>, at: int) -> (Attempt<Seq<char>>, int) {
    (required(token_at(s, at).0, expected_token()), token_at(s, at).1)
}

/// The numeric id that has to stand at `at`.
pub open spec fn get_id_at(s: Seq<char>, at: int) -> (Attempt<usize>, int) {
    (required(id_at(s, at).0, expected_id()), id_at(s, at).1)
}

/// The natural number that has to stand at `at`.
pub open spec fn get_natural_at(s: Seq<char>, at: int) -> (Attempt<usize>, int) {
    (required(natural_at(s, at).0, expected_natural()), natural_at(s, at).1)
}

/// The real number that has to stand at `at`.
pub open spec fn get_real_at(s: Seq<char>, at: int) -> (Attempt<Seq<char>>, int) {
    (required(real_at(s, at).0, expected_real()), real_at(s, at).1)
}

/// Takes the character at `at`, which has to be `expected`, and the blanks
/// after it. Any other character is taken too before the error is raised.
pub open spec fn char_at(s: Seq<char>, at: int, expected: char) -> (Attempt<()>, int) {
    if 0 <= at < s.len() {
        if s[at] == expected {
            (Ok(()), void_end(s, at + 1))
        } else {
            (Err(expected_literal(seq![expected])), at + 1)
        }
    } else {
        (Err(expected_literal(seq![expected])), at)
    }
}

/// Takes the literal `expected` at `at` and the blanks after it. Where the
/// text departs from the literal, the error is raised.
pub open spec fn literal_at(s: Seq<char>, at: int, expected: Seq<char>) -> (Attempt<()>, int) {
    let n = run(s, Pattern::Literal(expected), at);
    if n == expected.len() {
        (Ok(()), void_end(s, at + n))
    } else {
        (Err(expected_literal(expected)), at + n)
    }
}

/// Takes the rule at `at`, a `#` and at least one dash, and the blanks after
/// it.
pub open spec fn comment_at(s: Seq<char>, at: int) -> (Attempt<()>, int) {
    let n = run(s, Pattern::Comment, at);
    if n < 2 {
        (Err(expected_comment()), at + n)
    } else {
        (Ok(()), void_end(s, at + n))
    }
}

/// A task: an id, the word `TYPE` and a kind.
pub open spec fn task_at(s: Seq<char>, at: int) -> (Attempt<Task>, int) {
    let (id, a) = get_id_at(s, at);
    let (word, b) = literal_at(s, a, "TYPE"@);
    let (kind, c) = get_natural_at(s, b);
    if id is Err {
        (Err(id->Err_0), a)
    } else if word is Err {
        (Err(word->Err_0), b)
    } else if kind is Err {
        (Err(kind->Err_0), c)
    } else {
        (Ok(Task { id: id->Ok_0, kind: kind->Ok_0 }), c)
    }
}

/// An arc: an id, the word `FROM` and an id, the word `TO` and an id, the
/// word `TYPE` and a kind.
pub open spec fn arc_at(s: Seq<char>, at: int) -> (Attempt<Arc>, int) {
    let (id, a) = get_id_at(s, at);
    let (word_from, b) = literal_at(s, a, "FROM"@);
    let (from, c) = get_id_at(s, b);
    let (word_to, d) = literal_at(s, c, "TO"@);
    let (to, e) = get_id_at(s, d);
    let (word_type, f) = literal_at(s, e, "TYPE"@);
    let (kind, g) = get_natural_at(s, f);
    if id is Err {
        (Err(id->Err_0), a)
    } else if word_from is Err {
        (Err(word_from->Err_0), b)
    } else if from is Err {
        (Err(from->Err_0), c)
    } else if word_to is Err {
        (Err(word_to->Err_0), d)
    } else if to is Err {
        (Err(to->Err_0), e)
    } else if word_type is Err {
        (Err(word_type->Err_0), f)
    } else if kind is Err {
        (Err(kind->Err_0), g)
    } else {
        (Ok(Arc { id: id->Ok_0, from: from->Ok_0, to: to->Ok_0, kind: kind->Ok_0 }), g)
    }
}

/// A deadline: an id, the word `ON` and an id, the word `AT` and a natural
/// number.
pub open spec fn deadline_at(s: Seq<char>, at: int) -> (Attempt<Deadline>, int) {
    let (id, a) = get_id_at(s, at);
    let (word_on, b) = literal_at(s, a, "ON"@);
    let (on, c) = get_id_at(s, b);
    let (word_at, d) = literal_at(s, c, "AT"@);
    let (time, e) = get_natural_at(s, d);
    if id is Err {
        (Err(id->Err_0), a)
    } else if word_on is Err {
        (Err(word_on->Err_0), b)
    } else if on is Err {
        (Err(on->Err_0), c)
    } else if word_at is Err {
        (Err(word_at->Err_0), d)
    } else if time is Err {
        (Err(time->Err_0), e)
    } else {
        (Ok(Deadline { id: id->Ok_0, on: on->Ok_0, at: time->Ok_0 }), e)
    }
}

/// What follows the identifier `word` in the body of a graph, added to
/// `graph`: a task after `TASK`, an arc after `ARC`, a deadline after
/// `HARD_DEADLINE`, and after any other identifier the natural number that
/// is the value of the attribute of that name.
pub open spec fn item_at(s: Seq<char>, at: int, word: Seq<char>, graph: GraphView) -> (
    Attempt<GraphView>,
    int,
) {
    if word == "TASK"@ {
        let (task, end) = task_at(s, at);
        (
            match task {
                Ok(task) => Ok(GraphView { tasks: graph.tasks.push(task), ..graph }),
                Err(message) => Err(message),
            },
            end,
        )
    } else if word == "ARC"@ {
        let (arc, end) = arc_at(s, at);
        (
            match arc {
                Ok(arc) => Ok(GraphView { arcs: graph.arcs.push(arc), ..graph }),
                Err(message) => Err(message),
            },
            end,
        )
    } else if word == "HARD_DEADLINE"@ {
        let (deadline, end) = deadline_at(s, at);
        (
            match deadline {
                Ok(deadline) => Ok(
                    GraphView { deadlines: graph.deadlines.push(deadline), ..graph },
                ),
                Err(message) => Err(message),
            },
            end,
        )
    } else {
        let (value, end) = get_natural_at(s, at);
        (
            match value {
                Ok(value) => Ok(
                    GraphView { attributes: graph.attributes.insert(word, value), ..graph },
                ),
                Err(message) => Err(message),
            },
            end,
        )
    }
}

/// The body of a graph: items, each after its identifier, up to the first
/// place at which no identifier stands. The items are added to `graph` in
/// the order of the text.
pub open spec fn graph_at(s: Seq<char>, at: int, graph: GraphView) -> (Attempt<GraphView>, int)
    decreases s.len() - at,
    via graph_at_decreases
{
    let (word, a) = token_at(s, at);
    match word {
        None => (Ok(graph), a),
        Some(word) => {
            let (next, b) = item_at(s, a, word, graph);
            match next {
                Ok(next) => graph_at(s, b, next),
                Err(message) => (Err(message), b),
            }
        },
    }
}

#[via_fn]
proof fn graph_at_decreases(s: Seq<char>, at: int, graph: GraphView) {
    if 0 <= at <= s.len() {
        lemma_tokens_advance(s, at);
        let (word, a) = token_at(s, at);
        if let Some(word) = word {
            lemma_item_advances(s, a, word, graph);
        }
    }
}

/// The identifiers that stand one after another from `at` on.
pub open spec fn names_at(s: Seq<char>, at: int) -> (Seq<Seq<char>>, int)
    decreases s.len() - at,
    via names_at_decreases
{
    let (name, a) = token_at(s, at);
    match name {
        Some(name) => {
            let (names, b) = names_at(s, a);
            (seq![name] + names, b)
        },
        None => (Seq::empty(), a),
    }
}

#[via_fn]
proof fn names_at_decreases(s: Seq<char>, at: int) {
    if 0 <= at <= s.len() {
        lemma_tokens_advance(s, at);
    }
}

/// Puts `done` in front of what `rest` gives, if it gives anything.
pub open spec fn joined<T>(done: Seq<T>, rest: (Attempt<Seq<T>>, int)) -> (Attempt<Seq<T>>, int) {
    (
        match rest.0 {
            Ok(others) => Ok(done + others),
            Err(message) => Err(message),
        },
        rest.1,
    )
}

/// What is put in front one by one may as well be put there at once.
pub proof fn lemma_joined_push<T>(done: Seq<T>, next: T, rest: (Attempt<Seq<T>>, int))
    ensures
        joined(done, joined(seq![next], rest)) == joined(done.push(next), rest),
{
    if let Ok(others) = rest.0 {
        assert(done + (seq![next] + others) =~= done.push(next) + others);
    }
}

/// The `n` real numbers that have to stand one after another from `at` on.
pub open spec fn reals_at(s: Seq<char>, at: int, n: nat) -> (Attempt<Seq<Seq<char>>>, int)
    decreases n,
{
    if n == 0 {
        (Ok(Seq::empty()), at)
    } else {
        let (first, a) = get_real_at(s, at);
        match first {
            Err(message) => (Err(message), a),
            Ok(first) => joined(seq![first], reals_at(s, a, (n - 1) as nat)),
        }
    }
}

/// The rows of a table of `width` columns: as long as the text goes on
/// with something other than `}`, a row of `width` real numbers has to
/// follow. A table without columns has no rows.
pub open spec fn rows_at(s: Seq<char>, at: int, width: nat) -> (
    Attempt<Seq<Seq<Seq<char>>>>,
    int,
)
    decreases s.len() - at,
    via rows_at_decreases
{
    if width == 0 || peek_at(s, at) is None || peek_at(s, at) == Some('}') {
        (Ok(Seq::empty()), at)
    } else {
        let (row, a) = reals_at(s, at, width);
        match row {
            Ok(row) => joined(seq![row], rows_at(s, a, width)),
            Err(message) => (Err(message), a),
        }
    }
}

#[via_fn]
proof fn rows_at_decreases(s: Seq<char>, at: int, width: nat) {
    if 0 <= at <= s.len() {
        lemma_reals_advance(s, at, width);
    }
}

/// The map that binds each of `names` to the value at the same place of
/// `values`; of two equal names the later one counts.
pub open spec fn bound(names: Seq<Seq<char>>, values: Seq<Seq<char>>) -> Map<
    Seq<char>,
    Seq<char>,
>
    decreases names.len(),
{
    if names.len() == 0 {
        Map::empty()
    } else {
        bound(names.drop_last(), values.drop_last()).insert(names.last(), values.last())
    }
}

/// The `j`-th number of each row.
pub open spec fn column_data(rows: Seq<Seq<Seq<char>>>, j: int) -> Seq<Seq<char>> {
    Seq::new(rows.len(), |i: int| rows[i][j])
}

/// The columns that `rows` fill, one for each of `names`.
pub open spec fn columns_of(names: Seq<Seq<char>>, rows: Seq<Seq<Seq<char>>>) -> Seq<
    ColumnView,
> {
    Seq::new(names.len(), |j: int| ColumnView { name: names[j], data: column_data(rows, j) })
}

/// The body of a table: a `#`, the names of its attributes, a value for
/// each of them, the rule, a `#`, the names of the columns, and the rows.
pub open spec fn table_at(s: Seq<char>, at: int, name: Seq<char>, id: usize) -> (
    Attempt<TableView>,
    int,
) {
    let (head, a) = char_at(s, at, '#');
    let (names, b) = names_at(s, a);
    let (values, c) = reals_at(s, b, names.len());
    let (rule, d) = comment_at(s, c);
    let (body, e) = char_at(s, d, '#');
    let (columns, f) = names_at(s, e);
    let (rows, g) = rows_at(s, f, columns.len());
    if head is Err {
        (Err(head->Err_0), a)
    } else if values is Err {
        (Err(values->Err_0), c)
    } else if rule is Err {
        (Err(rule->Err_0), d)
    } else if body is Err {
        (Err(body->Err_0), e)
    } else if rows is Err {
        (Err(rows->Err_0), g)
    } else {
        (
            Ok(
                TableView {
                    name,
                    id,
                    attributes: bound(names, values->Ok_0),
                    columns: columns_of(columns, rows->Ok_0),
                },
            ),
            g,
        )
    }
}

/// How a step of the grammar ends: with success or the message of an
/// error, at a place of the text, with the content gathered up to there.
pub struct Outcome {
    pub result: Attempt<()>,
    pub end: int,
    pub content: ContentView,
}

/// The `}` that has to close a block.
pub open spec fn close_at(s: Seq<char>, at: int, content: ContentView) -> Outcome {
    let (close, end) = char_at(s, at, '}');
    Outcome {
        result: match close {
            Ok(_) => Ok(()),
            Err(_) => Err(unclosed_block()),
        },
        end,
        content,
    }
}

/// The body of a graph named `name` and numbered `id`; the graph is added
/// to `content`.
pub open spec fn graph_into(
    s: Seq<char>,
    at: int,
    name: Seq<char>,
    id: usize,
    content: ContentView,
) -> Outcome {
    let (graph, end) = graph_at(s, at, GraphView::empty(name, id));
    match graph {
        Ok(graph) => Outcome {
            result: Ok(()),
            end,
            content: ContentView { graphs: content.graphs.push(graph), ..content },
        },
        Err(message) => Outcome { result: Err(message), end, content },
    }
}

/// The body of a table named `name` and numbered `id`; the table is added
/// to `content`.
pub open spec fn table_into(
    s: Seq<char>,
    at: int,
    name: Seq<char>,
    id: usize,
    content: ContentView,
) -> Outcome {
    let (table, end) = table_at(s, at, name, id);
    match table {
        Ok(table) => Outcome {
            result: Ok(()),
            end,
            content: ContentView { tables: content.tables.push(table), ..content },
        },
        Err(message) => Outcome { result: Err(message), end, content },
    }
}

/// A block: a `{`, the body of a table if a `#` comes next and the body of
/// a graph if not, and a `}`.
pub open spec fn block_at(
    s: Seq<char>,
    at: int,
    name: Seq<char>,
    id: usize,
    content: ContentView,
) -> Outcome {
    let (open, a) = char_at(s, at, '{');
    let body = if peek_at(s, a) == Some('#') {
        table_into(s, a, name, id, content)
    } else {
        graph_into(s, a, name, id, content)
    };
    if open is Err {
        Outcome { result: Err(open->Err_0), end: a, content }
    } else if body.result is Err {
        body
    } else {
        close_at(s, body.end, body.content)
    }
}

/// A statement: an `@`, a name and a natural number, and then either a
/// block, which the name and the number identify, or nothing more, which
/// makes the number the value of the attribute of that name.
pub open spec fn statement_at(s: Seq<char>, at: int, content: ContentView) -> Outcome {
    let (sign, a) = char_at(s, at, '@');
    let (name, b) = get_token_at(s, a);
    let (number, c) = get_natural_at(s, b);
    if sign is Err {
        Outcome { result: Err(sign->Err_0), end: a, content }
    } else if name is Err {
        Outcome { result: Err(name->Err_0), end: b, content }
    } else if number is Err {
        Outcome { result: Err(number->Err_0), end: c, content }
    } else if peek_at(s, c) == Some('{') {
        block_at(s, c, name->Ok_0, number->Ok_0, content)
    } else {
        Outcome {
            result: Ok(()),
            end: c,
            content: ContentView {
                attributes: content.attributes.insert(name->Ok_0, number->Ok_0),
                ..content
            },
        }
    }
}

/// A document from `at` on: statements up to the end of the text. Any
/// character other than `@` where a statement should start is an error.
pub open spec fn document_at(s: Seq<char>, at: int, content: ContentView) -> Outcome
    decreases s.len() - at,
    via document_at_decreases
{
    match peek_at(s, at) {
        None => Outcome { result: Ok(()), end: at, content },
        Some(c) => {
            if c != '@' {
                Outcome { result: Err(unknown_statement()), end: at, content }
            } else {
                let first = statement_at(s, at, content);
                if first.result is Ok {
                    document_at(s, first.end, first.content)
                } else {
                    first
                }
            }
        },
    }
}

#[via_fn]
proof fn document_at_decreases(s: Seq<char>, at: int, content: ContentView) {
    if 0 <= at <= s.len() {
        lemma_statement_advances(s, at, content);
    }
}

/// An error as parsing reports it: the message, and the line on which the
/// error was raised.
pub struct Failure {
    pub message: Seq<char>,
    pub line: nat,
}

/// What parsing the text `s` gives: the content of the document, or the
/// first error.
pub open spec fn document(s: Seq<char>) -> Result<ContentView, Failure> {
    let outcome = document_at(s, 0, ContentView::empty());
    match outcome.result {
        Ok(_) => Ok(outcome.content),
        Err(message) => Err(Failure { message, line: line_at(s, outcome.end) }),
    }
}

/// Every reader of a single token stops between the place at which it
/// started and the end of the text, and beyond that place if it read
/// something.
pub proof fn lemma_tokens_advance(s: Seq<char>, at: int)
    requires
        0 <= at <= s.len(),
    ensures
        at <= void_end(s, at) <= s.len(),
        forall|p: Pattern| at <= (#[trigger] read_at(s, p, at)).1 <= s.len(),
        forall|p: Pattern| (#[trigger] read_at(s, p, at)).0 is Some ==> at < read_at(s, p, at).1,
        at <= token_at(s, at).1 <= s.len(),
        at <= id_at(s, at).1 <= s.len(),
        at <= natural_at(s, at).1 <= s.len(),
        at <= real_at(s, at).1 <= s.len(),
        token_at(s, at).0 is Some ==> at < token_at(s, at).1,
        id_at(s, at).0 is Some ==> at < id_at(s, at).1,
        natural_at(s, at).0 is Some ==> at < natural_at(s, at).1,
        real_at(s, at).0 is Some ==> at < real_at(s, at).1,
        forall|c: char| at <= (#[trigger] char_at(s, at, c)).1 <= s.len(),
        forall|c: char| (#[trigger] char_at(s, at, c)).0 is Ok ==> at < char_at(s, at, c).1,
        forall|text: Seq<char>| at <= (#[trigger] literal_at(s, at, text)).1 <= s.len(),
        at <= comment_at(s, at).1 <= s.len(),
        comment_at(s, at).0 is Ok ==> at < comment_at(s, at).1,
{
    lemma_run_is_longest(s, Pattern::Void, at);
    assert forall|p: Pattern| at <= (#[trigger] read_at(s, p, at)).1 <= s.len() && (read_at(
        s,
        p,
        at,
    ).0 is Some ==> at < read_at(s, p, at).1) by {
        lemma_run_is_longest(s, p, at);
    }
    lemma_run_is_longest(s, Pattern::Void, read_at(s, Pattern::Token, at).1);
    lemma_run_is_longest(s, Pattern::Void, read_at(s, Pattern::Natural, at).1);
    lemma_run_is_longest(s, Pattern::Void, read_at(s, Pattern::Real, at).1);
    if at < s.len() {
        lemma_run_is_longest(s, Pattern::Void, at + 1);
    }
    assert forall|text: Seq<char>| at <= (#[trigger] literal_at(s, at, text)).1 <= s.len() by {
        lemma_run_is_longest(s, Pattern::Literal(text), at);
        lemma_run_is_longest(s, Pattern::Void, at + run(s, Pattern::Literal(text), at));
    }
    lemma_run_is_longest(s, Pattern::Comment, at);
    lemma_run_is_longest(s, Pattern::Void, at + run(s, Pattern::Comment, at));
}

/// The required readers stop where the optional ones do.
pub proof fn lemma_required_advance(s: Seq<char>, at: int)
    requires
        0 <= at <= s.len(),
    ensures
        at <= get_token_at(s, at).1 <= s.len(),
        at <= get_id_at(s, at).1 <= s.len(),
        at <= get_natural_at(s, at).1 <= s.len(),
        at <= get_real_at(s, at).1 <= s.len(),
        get_token_at(s, at).0 is Ok ==> at < get_token_at(s, at).1,
        get_id_at(s, at).0 is Ok ==> at < get_id_at(s, at).1,
        get_natural_at(s, at).0 is Ok ==> at < get_natural_at(s, at).1,
        get_real_at(s, at).0 is Ok ==> at < get_real_at(s, at).1,
{
    lemma_tokens_advance(s, at);
}

/// An item of a graph ends between the place at which it started and the
/// end of the text.
pub proof fn lemma_item_advances(s: Seq<char>, at: int, word: Seq<char>, graph: GraphView)
    requires
        0 <= at <= s.len(),
    ensures
        at <= task_at(s, at).1 <= s.len(),
        at <= arc_at(s, at).1 <= s.len(),
        at <= deadline_at(s, at).1 <= s.len(),
        at <= item_at(s, at, word, graph).1 <= s.len(),
{
    lemma_required_advance(s, at);
    let a = get_id_at(s, at).1;
    lemma_tokens_advance(s, a);
    let b1 = literal_at(s, a, "TYPE"@).1;
    lemma_required_advance(s, b1);
    let b2 = literal_at(s, a, "FROM"@).1;
    lemma_required_advance(s, b2);
    let c2 = get_id_at(s, b2).1;
    lemma_tokens_advance(s, c2);
    let d2 = literal_at(s, c2, "TO"@).1;
    lemma_required_advance(s, d2);
    let e2 = get_id_at(s, d2).1;
    lemma_tokens_advance(s, e2);
    let f2 = literal_at(s, e2, "TYPE"@).1;
    lemma_required_advance(s, f2);
    let b3 = literal_at(s, a, "ON"@).1;
    lemma_required_advance(s, b3);
    let c3 = get_id_at(s, b3).1;
    lemma_tokens_advance(s, c3);
    let d3 = literal_at(s, c3, "AT"@).1;
    lemma_required_advance(s, d3);
}

/// The body of a graph ends between the place at which it started and the
/// end of the text.
pub proof fn lemma_graph_advances(s: Seq<char>, at: int, graph: GraphView)
    requires
        0 <= at <= s.len(),
    ensures
        at <= graph_at(s, at, graph).1 <= s.len(),
    decreases s.len() - at,
{
    lemma_tokens_advance(s, at);
    let (word, a) = token_at(s, at);
    if let Some(word) = word {
        lemma_item_advances(s, a, word, graph);
        let (next, b) = item_at(s, a, word, graph);
        if let Ok(next) = next {
            lemma_graph_advances(s, b, next);
        }
    }
}

/// A run of names ends between the place at which it started and the end
/// of the text.
pub proof fn lemma_names_advance(s: Seq<char>, at: int)
    requires
        0 <= at <= s.len(),
    ensures
        at <= names_at(s, at).1 <= s.len(),
    decreases s.len() - at,
{
    lemma_tokens_advance(s, at);
    let (name, a) = token_at(s, at);
    if name is Some {
        lemma_names_advance(s, a);
    }
}

/// A run of real numbers ends between the place at which it started and
/// the end of the text, and beyond that place if there is at least one
/// number. When it succeeds it gives as many numbers as were asked for.
pub proof fn lemma_reals_advance(s: Seq<char>, at: int, n: nat)
    requires
        0 <= at <= s.len(),
    ensures
        at <= reals_at(s, at, n).1 <= s.len(),
        reals_at(s, at, n).0 is Ok && n > 0 ==> at < reals_at(s, at, n).1,
        reals_at(s, at, n).0 matches Ok(row) ==> row.len() == n,
    decreases n,
{
    if n > 0 {
        lemma_required_advance(s, at);
        let (first, a) = get_real_at(s, at);
        if first is Ok {
            lemma_reals_advance(s, a, (n - 1) as nat);
        }
    }
}

/// The rows of a table end between the place at which they started and the
/// end of the text. Each of them is as wide as the table.
pub proof fn lemma_rows_advance(s: Seq<char>, at: int, width: nat)
    requires
        0 <= at <= s.len(),
    ensures
        at <= rows_at(s, at, width).1 <= s.len(),
        rows_at(s, at, width).0 matches Ok(rows) ==> forall|i: int|
            0 <= i < rows.len() ==> (#[trigger] rows[i]).len() == width,
    decreases s.len() - at,
{
    if !(width == 0 || peek_at(s, at) is None || peek_at(s, at) == Some('}')) {
        lemma_reals_advance(s, at, width);
        let (row, a) = reals_at(s, at, width);
        if row is Ok {
            lemma_rows_advance(s, a, width);
        }
    }
}

/// The body of a table ends between the place at which it started and the
/// end of the text.
pub proof fn lemma_table_advances(s: Seq<char>, at: int, name: Seq<char>, id: usize)
    requires
        0 <= at <= s.len(),
    ensures
        at <= table_at(s, at, name, id).1 <= s.len(),
{
    lemma_tokens_advance(s, at);
    let (head, a) = char_at(s, at, '#');
    lemma_names_advance(s, a);
    let (names, b) = names_at(s, a);
    lemma_reals_advance(s, b, names.len());
    let (values, c) = reals_at(s, b, names.len());
    lemma_tokens_advance(s, c);
    let (rule, d) = comment_at(s, c);
    lemma_tokens_advance(s, d);
    let (body, e) = char_at(s, d, '#');
    lemma_names_advance(s, e);
    let (columns, f) = names_at(s, e);
    lemma_rows_advance(s, f, columns.len());
}

/// A block ends between the place at which it started and the end of the
/// text.
pub proof fn lemma_block_advances(
    s: Seq<char>,
    at: int,
    name: Seq<char>,
    id: usize,
    content: ContentView,
)
    requires
        0 <= at <= s.len(),
    ensures
        at <= block_at(s, at, name, id, content).end <= s.len(),
{
    lemma_tokens_advance(s, at);
    let (open, a) = char_at(s, at, '{');
    lemma_table_advances(s, a, name, id);
    lemma_graph_advances(s, a, GraphView::empty(name, id));
    lemma_tokens_advance(s, table_at(s, a, name, id).1);
    lemma_tokens_advance(s, graph_at(s, a, GraphView::empty(name, id)).1);
}

/// A statement ends between the place at which it started and the end of
/// the text, and beyond that place when it succeeds.
pub proof fn lemma_statement_advances(s: Seq<char>, at: int, content: ContentView)
    requires
        0 <= at <= s.len(),
    ensures
        at <= statement_at(s, at, content).end <= s.len(),
        statement_at(s, at, content).result is Ok ==> at < statement_at(s, at, content).end,
{
    lemma_tokens_advance(s, at);
    let (sign, a) = char_at(s, at, '@');
    lemma_required_advance(s, a);
    let (name, b) = get_token_at(s, a);
    lemma_required_advance(s, b);
    let (number, c) = get_natural_at(s, b);
    if sign is Ok && name is Ok && number is Ok {
        lemma_block_advances(s, c, name->Ok_0, number->Ok_0, content);
    }
}

/// A document ends between the place at which it started and the end of
/// the text; when it succeeds, at the end of the text.
pub proof fn lemma_document_advances(s: Seq<char>, at: int, content: ContentView)
    requires
        0 <= at <= s.len(),
    ensures
        at <= document_at(s, at, content).end <= s.len(),
        document_at(s, at, content).result is Ok ==> document_at(s, at, content).end == s.len(),
    decreases s.len() - at,
{
    if let Some(c) = peek_at(s, at) {
        if c == '@' {
            lemma_statement_advances(s, at, content);
            let first = statement_at(s, at, content);
            if first.result is Ok {
                lemma_document_advances(s, first.end, first.content);
            }
        }
    }
}

} // verus!
