//! The parser: a cursor over the text, the readers of single tokens, and the
//! procedures that follow the grammar and gather the content.

use crate::chars::{
    lemma_line_step, lemma_newlines_bound, line_at, run, run_from, same_text, Rule,
};
use crate::content::{
    column_views, graph_views, numerals, table_views, Arc, Column, ColumnView, Content,
    ContentView, Deadline, Graph, GraphView, Table, Task,
};
use crate::dictionary::Dictionary;
use crate::error::Error;
use crate::grammar::{
    arc_at, block_at, bound, char_at, column_data, columns_of, comment_at, deadline_at, document,
    document_at, get_id_at, get_natural_at, get_real_at, get_token_at, graph_at, graph_into,
    id_at, item_at, joined, lemma_item_advances, lemma_joined_push, lemma_reals_advance,
    lemma_statement_advances, lemma_tokens_advance, literal_at, names_at, natural_at, peek_at,
    read_at, real_at, reals_at, rows_at, statement_at, table_into, task_at, token_at, void_end,
    Attempt, Failure, Outcome,
};
use crate::numbers::{chars_of, parse_id, parse_natural};
use crate::reals::Real;
use vstd::prelude::*;

verus! {

/// A parser at work on a text.
pub struct Parser {
    input: Vec<char>,
    position: usize,
    line: usize,
    content: Content,
}

/// The state of a [`Parser`]: the text, the place in it that comes next, and
/// the content gathered so far.
pub struct ParserView {
    pub text: Seq<char>,
    pub offset: int,
    pub content: ContentView,
}

impl ParserView {
    /// The line on which the parser stands.
    pub open spec fn line(self) -> nat {
        line_at(self.text, self.offset)
    }

    /// The same state at another place of the text.
    pub open spec fn moved_to(self, offset: int) -> ParserView {
        ParserView { offset, ..self }
    }

    /// The state in which a step of the grammar leaves the parser.
    pub open spec fn after(self, outcome: Outcome) -> ParserView {
        ParserView { text: self.text, offset: outcome.end, content: outcome.content }
    }
}

impl View for Parser {
    type V = ParserView;

    closed spec fn view(&self) -> ParserView {
        ParserView {
            text: self.input@,
            offset: self.position as int,
            content: self.content@,
        }
    }
}

/// The texts of a sequence of strings.
pub open spec fn texts(names: Seq<String>) -> Seq<Seq<char>> {
    Seq::new(names.len(), |i: int| names[i]@)
}

/// The view of what may be missing.
pub open spec fn seen<T: View>(value: Option<T>) -> Option<T::V> {
    match value {
        Some(value) => Some(value@),
        None => None,
    }
}

/// Whether `r` is what `attempt` asks for: the same value, or an error with
/// the same message, raised on `line`.
pub open spec fn agrees<T: View>(r: Result<T, Error>, attempt: Attempt<T::V>, line: nat) -> bool {
    match (r, attempt) {
        (Ok(value), Ok(expected)) => value@ == expected,
        (Err(error), Err(message)) => error.message@ == message && error.line == line,
        _ => false,
    }
}

/// The view of a result of parsing.
pub open spec fn parsed(r: Result<Content, Error>) -> Result<ContentView, Failure> {
    match r {
        Ok(content) => Ok(content@),
        Err(error) => Err(error@),
    }
}

/// Parses `text` and returns what it holds, or the first error met.
pub fn parse(text: &str) -> (r: Result<Content, Error>)
    requires
        text@.len() < usize::MAX,
    ensures
        parsed(r) == document(text@),
{
    let mut parser = Parser::new(text);
    let failure = match parser.process() {
        Ok(_) => None,
        Err(error) => Some(error),
    };
    match failure {
        None => Ok(parser.content),
        Some(error) => Err(error),
    }
}

impl Parser {
    /// The parser stands inside its text, the text leaves room for counting
    /// its lines, and the line counter agrees with the place.
    pub closed spec fn wf(&self) -> bool {
        &&& self.position <= self.input.len()
        &&& self.input.len() < usize::MAX
        &&& self.line == line_at(self.input@, self.position as int)
    }

    /// What well-formedness says of the view.
    pub proof fn lemma_wf(&self)
        requires
            self.wf(),
        ensures
            0 <= self@.offset <= self@.text.len() < usize::MAX,
    {
    }

    /// Creates a parser for `input`, with nothing read and nothing gathered.
    pub fn new(input: &str) -> (r: Parser)
        requires
            input@.len() < usize::MAX,
        ensures
            r.wf(),
            r@ == (ParserView { text: input@, offset: 0, content: ContentView::empty() }),
    {
        let r = Parser { input: chars_of(input), position: 0, line: 1, content: Content::new() };
        assert(r.input@.take(0) =~= Seq::empty());
        r
    }

    /// The content gathered so far.
    pub fn content(&self) -> (r: &Content)
        ensures
            r@ == self@.content,
    {
        &self.content
    }

    /// The line on which the parser stands, counted from one.
    pub fn line(&self) -> (r: usize)
        requires
            self.wf(),
        ensures
            r == self@.line(),
    {
        self.line
    }

    /// The next character, if there is one. Nothing is consumed.
    pub fn peek(&self) -> (r: Option<char>)
        requires
            self.wf(),
        ensures
            r == peek_at(self@.text, self@.offset),
    {
        if self.position < self.input.len() {
            Some(self.input[self.position])
        } else {
            None
        }
    }

    /// Consumes the next character, if there is one, and counts the line
    /// when it is a newline.
    pub fn next(&mut self) -> (r: Option<char>)
        requires
            old(self).wf(),
        ensures
            final(self).wf(),
            r == peek_at(old(self)@.text, old(self)@.offset),
            final(self)@ == old(self)@.moved_to(
                if r is Some {
                    old(self)@.offset + 1
                } else {
                    old(self)@.offset
                },
            ),
    {
        if self.position < self.input.len() {
            let c = self.input[self.position];
            proof {
                lemma_line_step(self.input@, self.position as int);
                lemma_newlines_bound(self.input@.take(self.position as int + 1));
            }
            self.position += 1;
            if c == '\n' {
                self.line += 1;
            }
            Some(c)
        } else {
            None
        }
    }

    /// Consumes the longest run of characters that `rule` accepts and
    /// returns its length.
    pub fn skip(&mut self, rule: &Rule) -> (count: usize)
        requires
            old(self).wf(),
        ensures
            final(self).wf(),
            count == run(old(self)@.text, rule@, old(self)@.offset),
            final(self)@ == old(self)@.moved_to(old(self)@.offset + count),
    {
        let ghost start = self@;
        let mut count: usize = 0;
        loop
            invariant
                self.wf(),
                0 <= start.offset,
                self@ == start.moved_to(start.offset + count),
                count + run_from(start.text, rule@, start.offset, count as int) == run(
                    start.text,
                    rule@,
                    start.offset,
                ),
            ensures
                run_from(start.text, rule@, start.offset, count as int) == 0,
            decreases start.text.len() - self@.offset,
        {
            match self.peek() {
                Some(c) => {
                    if !rule.accepts(count, c) {
                        break ;
                    }
                    self.next();
                    count += 1;
                },
                None => {
                    break ;
                },
            }
        }
        count
    }

    /// Consumes the blanks that come next.
    pub fn skip_void(&mut self)
        requires
            old(self).wf(),
        ensures
            final(self).wf(),
            final(self)@ == old(self)@.moved_to(void_end(old(self)@.text, old(self)@.offset)),
    {
        self.skip(&Rule::Void);
    }

    /// Consumes the next character, which has to be `expected`, and the
    /// blanks after it.
    pub fn skip_char(&mut self, expected: char) -> (r: Result<(), Error>)
        requires
            old(self).wf(),
        ensures
            final(self).wf(),
            final(self)@ == old(self)@.moved_to(
                char_at(old(self)@.text, old(self)@.offset, expected).1,
            ),
            agrees(r, char_at(old(self)@.text, old(self)@.offset, expected).0, final(self)@.line()),
    {
        match self.next() {
            Some(c) => {
                if c == expected {
                    self.skip_void();
                    return Ok(());
                }
            },
            None => {},
        }
        Err(Error::expected_char(self.line, expected))
    }

    /// Consumes the literal `expected` and the blanks after it.
    pub fn skip_str(&mut self, expected: &str) -> (r: Result<(), Error>)
        requires
            old(self).wf(),
        ensures
            final(self).wf(),
            final(self)@ == old(self)@.moved_to(
                literal_at(old(self)@.text, old(self)@.offset, expected@).1,
            ),
            agrees(
                r,
                literal_at(old(self)@.text, old(self)@.offset, expected@).0,
                final(self)@.line(),
            ),
    {
        let literal = chars_of(expected);
        if self.skip(&Rule::Literal(&literal)) != literal.len() {
            return Err(Error::expected(self.line, expected));
        }
        self.skip_void();
        Ok(())
    }

    /// Consumes the rule that parts the head of a table from its columns,
    /// and the blanks after it.
    pub fn skip_comment(&mut self) -> (r: Result<(), Error>)
        requires
            old(self).wf(),
        ensures
            final(self).wf(),
            final(self)@ == old(self)@.moved_to(comment_at(old(self)@.text, old(self)@.offset).1),
            agrees(r, comment_at(old(self)@.text, old(self)@.offset).0, final(self)@.line()),
    {
        if self.skip(&Rule::Comment) < 2 {
            return Err(Error::new(self.line, "expected a comment line"));
        }
        self.skip_void();
        Ok(())
    }

    /// Consumes the longest run of characters that `rule` accepts and
    /// returns it, unless it is empty.
    pub fn read(&mut self, rule: &Rule) -> (r: Option<String>)
        requires
            old(self).wf(),
        ensures
            final(self).wf(),
            final(self)@ == old(self)@.moved_to(
                read_at(old(self)@.text, rule@, old(self)@.offset).1,
            ),
            seen(r) == read_at(old(self)@.text, rule@, old(self)@.offset).0,
    {
        let ghost start = self@;
        let mut result = String::new();
        let mut count: usize = 0;
        loop
            invariant
                self.wf(),
                0 <= start.offset,
                self@ == start.moved_to(start.offset + count),
                count + run_from(start.text, rule@, start.offset, count as int) == run(
                    start.text,
                    rule@,
                    start.offset,
                ),
                result@ == start.text.subrange(start.offset, start.offset + count),
            ensures
                run_from(start.text, rule@, start.offset, count as int) == 0,
            decreases start.text.len() - self@.offset,
        {
            match self.peek() {
                Some(c) => {
                    if !rule.accepts(count, c) {
                        break ;
                    }
                    result.push(c);
                    self.next();
                    count += 1;
                    assert(result@ =~= start.text.subrange(start.offset, start.offset + count));
                },
                None => {
                    break ;
                },
            }
        }
        if count == 0 {
            None
        } else {
            Some(result)
        }
    }

    /// Reads an identifier and the blanks after it.
    pub fn read_token(&mut self) -> (r: Option<String>)
        requires
            old(self).wf(),
        ensures
            final(self).wf(),
            final(self)@ == old(self)@.moved_to(token_at(old(self)@.text, old(self)@.offset).1),
            seen(r) == token_at(old(self)@.text, old(self)@.offset).0,
    {
        let result = self.read(&Rule::Token);
        self.skip_void();
        result
    }

    /// Reads an identifier and the blanks after it, and returns the numeric
    /// id that the identifier carries.
    pub fn read_id(&mut self) -> (r: Option<usize>)
        requires
            old(self).wf(),
        ensures
            final(self).wf(),
            final(self)@ == old(self)@.moved_to(id_at(old(self)@.text, old(self)@.offset).1),
            r == id_at(old(self)@.text, old(self)@.offset).0,
    {
        match self.read_token() {
            Some(token) => parse_id(token.as_str()),
            None => None,
        }
    }

    /// Reads a natural number and the blanks after it.
    pub fn read_natural(&mut self) -> (r: Option<usize>)
        requires
            old(self).wf(),
        ensures
            final(self).wf(),
            final(self)@ == old(self)@.moved_to(natural_at(old(self)@.text, old(self)@.offset).1),
            r == natural_at(old(self)@.text, old(self)@.offset).0,
    {
        let result = match self.read(&Rule::Natural) {
            Some(number) => parse_natural(number.as_str()),
            None => None,
        };
        self.skip_void();
        result
    }

    /// Reads a real number and the blanks after it.
    pub fn read_real(&mut self) -> (r: Option<Real>)
        requires
            old(self).wf(),
        ensures
            final(self).wf(),
            final(self)@ == old(self)@.moved_to(real_at(old(self)@.text, old(self)@.offset).1),
            seen(r) == real_at(old(self)@.text, old(self)@.offset).0,
    {
        let result = match self.read(&Rule::Real) {
            Some(number) => Real::parse(number),
            None => None,
        };
        self.skip_void();
        result
    }

    /// Reads an identifier, which has to be there.
    pub fn get_token(&mut self) -> (r: Result<String, Error>)
        requires
            old(self).wf(),
        ensures
            final(self).wf(),
            final(self)@ == old(self)@.moved_to(get_token_at(old(self)@.text, old(self)@.offset).1),
            agrees(r, get_token_at(old(self)@.text, old(self)@.offset).0, final(self)@.line()),
    {
        match self.read_token() {
            Some(token) => Ok(token),
            None => Err(Error::new(self.line, "expected a token")),
        }
    }

    /// Reads a numeric id, which has to be there.
    pub fn get_id(&mut self) -> (r: Result<usize, Error>)
        requires
            old(self).wf(),
        ensures
            final(self).wf(),
            final(self)@ == old(self)@.moved_to(get_id_at(old(self)@.text, old(self)@.offset).1),
            agrees(r, get_id_at(old(self)@.text, old(self)@.offset).0, final(self)@.line()),
    {
        match self.read_id() {
            Some(id) => Ok(id),
            None => Err(Error::new(self.line, "expected an id")),
        }
    }

    /// Reads a natural number, which has to be there.
    pub fn get_natural(&mut self) -> (r: Result<usize, Error>)
        requires
            old(self).wf(),
        ensures
            final(self).wf(),
            final(self)@ == old(self)@.moved_to(
                get_natural_at(old(self)@.text, old(self)@.offset).1,
            ),
            agrees(r, get_natural_at(old(self)@.text, old(self)@.offset).0, final(self)@.line()),
    {
        match self.read_natural() {
            Some(number) => Ok(number),
            None => Err(Error::new(self.line, "expected a natural number")),
        }
    }

    /// Reads a real number, which has to be there.
    pub fn get_real(&mut self) -> (r: Result<Real, Error>)
        requires
            old(self).wf(),
        ensures
            final(self).wf(),
            final(self)@ == old(self)@.moved_to(get_real_at(old(self)@.text, old(self)@.offset).1),
            agrees(r, get_real_at(old(self)@.text, old(self)@.offset).0, final(self)@.line()),
    {
        match self.read_real() {
            Some(number) => Ok(number),
            None => Err(Error::new(self.line, "expected a real number")),
        }
    }
    /// Reads what describes a task: its id, the word `TYPE` and its kind.
    fn get_task(&mut self) -> (r: Result<Task, Error>)
        requires
            old(self).wf(),
        ensures
            final(self).wf(),
            final(self)@ == old(self)@.moved_to(task_at(old(self)@.text, old(self)@.offset).1),
            agrees(r, task_at(old(self)@.text, old(self)@.offset).0, final(self)@.line()),
    {
        let id = match self.get_id() {
            Ok(id) => id,
            Err(error) => {
                return Err(error);
            },
        };
        match self.skip_str("TYPE") {
            Ok(()) => {},
            Err(error) => {
                return Err(error);
            },
        }
        let kind = match self.get_natural() {
            Ok(kind) => kind,
            Err(error) => {
                return Err(error);
            },
        };
        Ok(Task::new(id, kind))
    }

    /// Reads what describes an arc: its id, the word `FROM` and the id of
    /// its source, the word `TO` and the id of its destination, the word
    /// `TYPE` and its kind.
    fn get_arc(&mut self) -> (r: Result<Arc, Error>)
        requires
            old(self).wf(),
        ensures
            final(self).wf(),
            final(self)@ == old(self)@.moved_to(arc_at(old(self)@.text, old(self)@.offset).1),
            agrees(r, arc_at(old(self)@.text, old(self)@.offset).0, final(self)@.line()),
    {
        let id = match self.get_id() {
            Ok(id) => id,
            Err(error) => {
                return Err(error);
            },
        };
        match self.skip_str("FROM") {
            Ok(()) => {},
            Err(error) => {
                return Err(error);
            },
        }
        let from = match self.get_id() {
            Ok(from) => from,
            Err(error) => {
                return Err(error);
            },
        };
        match self.skip_str("TO") {
            Ok(()) => {},
            Err(error) => {
                return Err(error);
            },
        }
        let to = match self.get_id() {
            Ok(to) => to,
            Err(error) => {
                return Err(error);
            },
        };
        match self.skip_str("TYPE") {
            Ok(()) => {},
            Err(error) => {
                return Err(error);
            },
        }
        let kind = match self.get_natural() {
            Ok(kind) => kind,
            Err(error) => {
                return Err(error);
            },
        };
        Ok(Arc::new(id, from, to, kind))
    }

    /// Reads what describes a deadline: its id, the word `ON` and the id of
    /// the task, the word `AT` and the time.
    fn get_deadline(&mut self) -> (r: Result<Deadline, Error>)
        requires
            old(self).wf(),
        ensures
            final(self).wf(),
            final(self)@ == old(self)@.moved_to(deadline_at(old(self)@.text, old(self)@.offset).1),
            agrees(r, deadline_at(old(self)@.text, old(self)@.offset).0, final(self)@.line()),
    {
        let id = match self.get_id() {
            Ok(id) => id,
            Err(error) => {
                return Err(error);
            },
        };
        match self.skip_str("ON") {
            Ok(()) => {},
            Err(error) => {
                return Err(error);
            },
        }
        let on = match self.get_id() {
            Ok(on) => on,
            Err(error) => {
                return Err(error);
            },
        };
        match self.skip_str("AT") {
            Ok(()) => {},
            Err(error) => {
                return Err(error);
            },
        }
        let at = match self.get_natural() {
            Ok(at) => at,
            Err(error) => {
                return Err(error);
            },
        };
        Ok(Deadline::new(id, on, at))
    }

    /// Reads what follows the identifier `word` in the body of a graph and
    /// adds it to `graph`.
    fn process_item(&mut self, word: String, graph: &mut Graph) -> (r: Result<(), Error>)
        requires
            old(self).wf(),
        ensures
            final(self).wf(),
            final(self)@ == old(self)@.moved_to(
                item_at(old(self)@.text, old(self)@.offset, word@, old(graph)@).1,
            ),
            match item_at(old(self)@.text, old(self)@.offset, word@, old(graph)@).0 {
                Ok(next) => r is Ok && final(graph)@ == next,
                Err(message) => r matches Err(error) && error.message@ == message && error.line
                    == final(self)@.line(),
            },
    {
        if same_text(word.as_str(), "TASK") {
            match self.get_task() {
                Ok(task) => {
                    graph.tasks.push(task);
                },
                Err(error) => {
                    return Err(error);
                },
            }
        } else if same_text(word.as_str(), "ARC") {
            match self.get_arc() {
                Ok(arc) => {
                    graph.arcs.push(arc);
                },
                Err(error) => {
                    return Err(error);
                },
            }
        } else if same_text(word.as_str(), "HARD_DEADLINE") {
            match self.get_deadline() {
                Ok(deadline) => {
                    graph.deadlines.push(deadline);
                },
                Err(error) => {
                    return Err(error);
                },
            }
        } else {
            match self.get_natural() {
                Ok(value) => {
                    graph.attributes.insert(word, value);
                },
                Err(error) => {
                    return Err(error);
                },
            }
        }
        Ok(())
    }

    /// Reads the body of a graph named `name` and numbered `id`, and adds
    /// the graph to the content.
    pub fn process_graph(&mut self, name: String, id: usize) -> (r: Result<(), Error>)
        requires
            old(self).wf(),
        ensures
            final(self).wf(),
            final(self)@ == old(self)@.after(
                graph_into(old(self)@.text, old(self)@.offset, name@, id, old(self)@.content),
            ),
            agrees(
                r,
                graph_into(old(self)@.text, old(self)@.offset, name@, id, old(self)@.content).result,
                final(self)@.line(),
            ),
    {
        let ghost start = self@;
        let mut graph = Graph::new(name, id);
        loop
            invariant_except_break
                graph_at(start.text, start.offset, GraphView::empty(name@, id)) == graph_at(
                    start.text,
                    self@.offset,
                    graph@,
                ),
            invariant
                self.wf(),
                start == old(self)@,
                self@ == start.moved_to(self@.offset),
            ensures
                graph_at(start.text, start.offset, GraphView::empty(name@, id)) == (
                    Ok::<GraphView, Seq<char>>(graph@),
                    self@.offset,
                ),
            decreases self@.text.len() - self@.offset,
        {
            let ghost before = self@;
            proof {
                self.lemma_wf();
                lemma_tokens_advance(before.text, before.offset);
            }
            match self.read_token() {
                Some(token) => {
                    proof {
                        self.lemma_wf();
                        lemma_item_advances(before.text, self@.offset, token@, graph@);
                    }
                    match self.process_item(token, &mut graph) {
                        Ok(()) => {},
                        Err(error) => {
                            return Err(error);
                        },
                    }
                },
                None => {
                    break ;
                },
            }
        }
        proof {
            assert(graph_views(self.content.graphs@.push(graph)) =~= graph_views(
                self.content.graphs@,
            ).push(graph@));
        }
        self.content.graphs.push(graph);
        Ok(())
    }
    /// Reads the identifiers that stand one after another.
    fn read_names(&mut self) -> (names: Vec<String>)
        requires
            old(self).wf(),
        ensures
            final(self).wf(),
            final(self)@ == old(self)@.moved_to(names_at(old(self)@.text, old(self)@.offset).1),
            texts(names@) == names_at(old(self)@.text, old(self)@.offset).0,
    {
        let ghost start = self@;
        let mut names: Vec<String> = Vec::new();
        loop
            invariant_except_break
                names_at(start.text, start.offset).0 == texts(names@) + names_at(
                    start.text,
                    self@.offset,
                ).0,
                names_at(start.text, start.offset).1 == names_at(start.text, self@.offset).1,
            invariant
                self.wf(),
                start == old(self)@,
                self@ == start.moved_to(self@.offset),
            ensures
                names_at(start.text, start.offset) == (texts(names@), self@.offset),
            decreases self@.text.len() - self@.offset,
        {
            let ghost before = self@;
            proof {
                self.lemma_wf();
                lemma_tokens_advance(before.text, before.offset);
            }
            match self.read_token() {
                Some(name) => {
                    proof {
                        self.lemma_wf();
                        let rest = names_at(start.text, self@.offset).0;
                        assert(texts(names@.push(name)) + rest =~= texts(names@) + (seq![name@]
                            + rest));
                    }
                    names.push(name);
                },
                None => {
                    proof {
                        assert(texts(names@) + Seq::<Seq<char>>::empty() =~= texts(names@));
                    }
                    break ;
                },
            }
        }
        names
    }

    /// Reads a value for each of `names`, in their order, and binds the
    /// names to the values.
    fn get_attributes(&mut self, names: Vec<String>) -> (r: Result<Dictionary<Real>, Error>)
        requires
            old(self).wf(),
        ensures
            final(self).wf(),
            final(self)@ == old(self)@.moved_to(
                reals_at(old(self)@.text, old(self)@.offset, names.len() as nat).1,
            ),
            match reals_at(old(self)@.text, old(self)@.offset, names.len() as nat).0 {
                Ok(values) => r matches Ok(attributes) && attributes@ == bound(
                    texts(names@),
                    values,
                ),
                Err(message) => r matches Err(error) && error.message@ == message && error.line
                    == final(self)@.line(),
            },
    {
        let ghost start = self@;
        let ghost count = names.len() as nat;
        let ghost all = texts(names@);
        let ghost mut values: Seq<Seq<char>> = Seq::empty();
        let mut attributes: Dictionary<Real> = Dictionary::new();
        for name in it: names.into_iter()
            invariant
                self.wf(),
                start == old(self)@,
                self@ == start.moved_to(self@.offset),
                it.seq() == names@,
                count == names.len(),
                all == texts(names@),
                values.len() == it.index(),
                attributes@ == bound(all.take(it.index() as int), values),
                reals_at(start.text, start.offset, count) == joined(
                    values,
                    reals_at(start.text, self@.offset, (count - it.index()) as nat),
                ),
        {
            let ghost i = it.index() as int;
            let value = match self.get_real() {
                Ok(value) => value,
                Err(error) => {
                    return Err(error);
                },
            };
            proof {
                lemma_joined_push(
                    values,
                    value@,
                    reals_at(start.text, self@.offset, (count - i - 1) as nat),
                );
                assert(all.take(i + 1).drop_last() =~= all.take(i));
                assert(values.push(value@).drop_last() =~= values);
                values = values.push(value@);
            }
            attributes.insert(name, value);
        }
        proof {
            assert(all.take(count as int) =~= all);
            assert(values + Seq::<Seq<char>>::empty() =~= values);
        }
        Ok(attributes)
    }

    /// Reads a row of a table: a number for each of `columns`, in their
    /// order, which is added to the column.
    fn get_row(&mut self, columns: &mut Vec<Column>) -> (r: Result<(), Error>)
        requires
            old(self).wf(),
        ensures
            final(self).wf(),
            final(self)@ == old(self)@.moved_to(
                reals_at(old(self)@.text, old(self)@.offset, old(columns).len() as nat).1,
            ),
            match reals_at(old(self)@.text, old(self)@.offset, old(columns).len() as nat).0 {
                Ok(row) => {
                    &&& r is Ok
                    &&& final(columns).len() == old(columns).len()
                    &&& forall|j: int|
                        0 <= j < old(columns).len() ==> (#[trigger] final(columns)[j])@ == (
                            ColumnView {
                                name: old(columns)[j]@.name,
                                data: old(columns)[j]@.data.push(row[j]),
                            }
                        )
                },
                Err(message) => r matches Err(error) && error.message@ == message && error.line
                    == final(self)@.line(),
            },
    {
        let ghost start = self@;
        let ghost mut row: Seq<Seq<char>> = Seq::empty();
        let width = columns.len();
        let mut j: usize = 0;
        while j < width
            invariant
                self.wf(),
                start == old(self)@,
                self@ == start.moved_to(self@.offset),
                j <= width == columns.len() == old(columns).len(),
                row.len() == j,
                reals_at(start.text, start.offset, width as nat) == joined(
                    row,
                    reals_at(start.text, self@.offset, (width - j) as nat),
                ),
                forall|c: int|
                    0 <= c < j ==> (#[trigger] columns[c])@ == (ColumnView {
                        name: old(columns)[c]@.name,
                        data: old(columns)[c]@.data.push(row[c]),
                    }),
                forall|c: int| j <= c < width ==> #[trigger] columns[c] == old(columns)[c],
            decreases width - j,
        {
            let value = match self.get_real() {
                Ok(value) => value,
                Err(error) => {
                    return Err(error);
                },
            };
            proof {
                lemma_joined_push(
                    row,
                    value@,
                    reals_at(start.text, self@.offset, (width - j - 1) as nat),
                );
                row = row.push(value@);
                assert(numerals(columns[j as int].data@.push(value)) =~= numerals(
                    columns[j as int].data@,
                ).push(value@));
            }
            columns[j].data.push(value);
            j += 1;
        }
        proof {
            assert(row + Seq::<Seq<char>>::empty() =~= row);
        }
        Ok(())
    }

    /// Reads the rows of a table and adds their numbers to `columns`.
    fn get_rows(&mut self, columns: &mut Vec<Column>) -> (r: Result<(), Error>)
        requires
            old(self).wf(),
        ensures
            final(self).wf(),
            final(self)@ == old(self)@.moved_to(
                rows_at(old(self)@.text, old(self)@.offset, old(columns).len() as nat).1,
            ),
            match rows_at(old(self)@.text, old(self)@.offset, old(columns).len() as nat).0 {
                Ok(rows) => {
                    &&& r is Ok
                    &&& final(columns).len() == old(columns).len()
                    &&& forall|j: int|
                        0 <= j < old(columns).len() ==> (#[trigger] final(columns)[j])@ == (
                            ColumnView {
                                name: old(columns)[j]@.name,
                                data: old(columns)[j]@.data + column_data(rows, j),
                            }
                        )
                },
                Err(message) => r matches Err(error) && error.message@ == message && error.line
                    == final(self)@.line(),
            },
    {
        let ghost start = self@;
        let ghost mut rows: Seq<Seq<Seq<char>>> = Seq::empty();
        let width = columns.len();
        loop
            invariant_except_break
                rows_at(start.text, start.offset, width as nat) == joined(
                    rows,
                    rows_at(start.text, self@.offset, width as nat),
                ),
            invariant
                self.wf(),
                start == old(self)@,
                self@ == start.moved_to(self@.offset),
                width == columns.len() == old(columns).len(),
                forall|j: int|
                    0 <= j < width ==> (#[trigger] columns[j])@ == (ColumnView {
                        name: old(columns)[j]@.name,
                        data: old(columns)[j]@.data + column_data(rows, j),
                    }),
            ensures
                rows_at(start.text, start.offset, width as nat) == (
                    Ok::<Seq<Seq<Seq<char>>>, Seq<char>>(rows),
                    self@.offset,
                ),
            decreases self@.text.len() - self@.offset,
        {
            let ghost before = self@;
            let ghost filled = columns@;
            proof {
                self.lemma_wf();
                lemma_reals_advance(before.text, before.offset, width as nat);
                assert(rows + Seq::<Seq<Seq<char>>>::empty() =~= rows);
            }
            if width == 0 {
                break ;
            }
            match self.peek() {
                Some(c) => {
                    if c == '}' {
                        break ;
                    }
                },
                None => {
                    break ;
                },
            }
            match self.get_row(columns) {
                Ok(()) => {},
                Err(error) => {
                    return Err(error);
                },
            }
            proof {
                self.lemma_wf();
                let row = reals_at(before.text, before.offset, width as nat).0->Ok_0;
                lemma_joined_push(rows, row, rows_at(start.text, self@.offset, width as nat));
                assert forall|j: int| 0 <= j < width implies (#[trigger] columns[j])@ == (
                ColumnView {
                    name: old(columns)[j]@.name,
                    data: old(columns)[j]@.data + column_data(rows.push(row), j),
                }) by {
                    assert(filled[j]@.data.push(row[j]) =~= old(columns)[j]@.data + column_data(
                        rows.push(row),
                        j,
                    ));
                }
                rows = rows.push(row);
            }
        }
        Ok(())
    }

    /// Makes a column of each of `names`, in their order, and fills the
    /// columns with the rows that follow.
    fn get_columns(&mut self, names: Vec<String>) -> (r: Result<Vec<Column>, Error>)
        requires
            old(self).wf(),
        ensures
            final(self).wf(),
            final(self)@ == old(self)@.moved_to(
                rows_at(old(self)@.text, old(self)@.offset, names.len() as nat).1,
            ),
            match rows_at(old(self)@.text, old(self)@.offset, names.len() as nat).0 {
                Ok(rows) => r matches Ok(columns) && column_views(columns@) == columns_of(
                    texts(names@),
                    rows,
                ),
                Err(message) => r matches Err(error) && error.message@ == message && error.line
                    == final(self)@.line(),
            },
    {
        let mut columns: Vec<Column> = Vec::new();
        for name in it: names.into_iter()
            invariant
                it.seq() == names@,
                columns.len() == it.index(),
                forall|j: int|
                    0 <= j < columns.len() ==> (#[trigger] columns[j])@ == (ColumnView {
                        name: names[j]@,
                        data: Seq::empty(),
                    }),
        {
            columns.push(Column::new(name));
        }
        match self.get_rows(&mut columns) {
            Ok(()) => {},
            Err(error) => {
                return Err(error);
            },
        }
        proof {
            let rows = rows_at(old(self)@.text, old(self)@.offset, names.len() as nat).0->Ok_0;
            assert forall|j: int| 0 <= j < columns.len() implies (#[trigger] columns[j])@
                == columns_of(texts(names@), rows)[j] by {
                assert(Seq::<Seq<char>>::empty() + column_data(rows, j) =~= column_data(rows, j));
            }
            assert(column_views(columns@) =~= columns_of(texts(names@), rows));
        }
        Ok(columns)
    }

    /// Reads the body of a table named `name` and numbered `id`, and adds
    /// the table to the content.
    pub fn process_table(&mut self, name: String, id: usize) -> (r: Result<(), Error>)
        requires
            old(self).wf(),
        ensures
            final(self).wf(),
            final(self)@ == old(self)@.after(
                table_into(old(self)@.text, old(self)@.offset, name@, id, old(self)@.content),
            ),
            agrees(
                r,
                table_into(old(self)@.text, old(self)@.offset, name@, id, old(self)@.content).result,
                final(self)@.line(),
            ),
    {
        let mut table = Table::new(name, id);
        match self.skip_char('#') {
            Ok(()) => {},
            Err(error) => {
                return Err(error);
            },
        }
        let names = self.read_names();
        table.attributes = match self.get_attributes(names) {
            Ok(attributes) => attributes,
            Err(error) => {
                return Err(error);
            },
        };
        match self.skip_comment() {
            Ok(()) => {},
            Err(error) => {
                return Err(error);
            },
        }
        match self.skip_char('#') {
            Ok(()) => {},
            Err(error) => {
                return Err(error);
            },
        }
        let names = self.read_names();
        table.columns = match self.get_columns(names) {
            Ok(columns) => columns,
            Err(error) => {
                return Err(error);
            },
        };
        proof {
            assert(table_views(self.content.tables@.push(table)) =~= table_views(
                self.content.tables@,
            ).push(table@));
        }
        self.content.tables.push(table);
        Ok(())
    }

    /// Reads a block that the name `name` and the number `id` identify: a
    /// `{`, the body of a table or of a graph, and a `}`.
    pub fn process_block(&mut self, name: String, id: usize) -> (r: Result<(), Error>)
        requires
            old(self).wf(),
        ensures
            final(self).wf(),
            final(self)@ == old(self)@.after(
                block_at(old(self)@.text, old(self)@.offset, name@, id, old(self)@.content),
            ),
            agrees(
                r,
                block_at(old(self)@.text, old(self)@.offset, name@, id, old(self)@.content).result,
                final(self)@.line(),
            ),
    {
        match self.skip_char('{') {
            Ok(()) => {},
            Err(error) => {
                return Err(error);
            },
        }
        let table = match self.peek() {
            Some(c) => c == '#',
            None => false,
        };
        let body = if table {
            self.process_table(name, id)
        } else {
            self.process_graph(name, id)
        };
        match body {
            Ok(()) => {},
            Err(error) => {
                return Err(error);
            },
        }
        match self.skip_char('}') {
            Ok(()) => Ok(()),
            Err(error) => Err(Error::new(error.line, "cannot find the end of a block")),
        }
    }

    /// Reads a statement: an `@`, a name and a number, and the block that
    /// they identify if one follows. Without a block the number becomes the
    /// value of the attribute of that name.
    pub fn process_at(&mut self) -> (r: Result<(), Error>)
        requires
            old(self).wf(),
        ensures
            final(self).wf(),
            final(self)@ == old(self)@.after(
                statement_at(old(self)@.text, old(self)@.offset, old(self)@.content),
            ),
            agrees(
                r,
                statement_at(old(self)@.text, old(self)@.offset, old(self)@.content).result,
                final(self)@.line(),
            ),
    {
        match self.skip_char('@') {
            Ok(()) => {},
            Err(error) => {
                return Err(error);
            },
        }
        let name = match self.get_token() {
            Ok(name) => name,
            Err(error) => {
                return Err(error);
            },
        };
        let number = match self.get_natural() {
            Ok(number) => number,
            Err(error) => {
                return Err(error);
            },
        };
        let block = match self.peek() {
            Some(c) => c == '{',
            None => false,
        };
        if block {
            self.process_block(name, number)
        } else {
            self.content.attributes.insert(name, number);
            Ok(())
        }
    }

    /// Parses the text from where the parser stands up to its end, and
    /// returns the content gathered. Parsing stops at the first error.
    pub fn process(&mut self) -> (r: Result<&Content, Error>)
        requires
            old(self).wf(),
        ensures
            final(self).wf(),
            final(self)@ == old(self)@.after(
                document_at(old(self)@.text, old(self)@.offset, old(self)@.content),
            ),
            agrees(
                r,
                match document_at(old(self)@.text, old(self)@.offset, old(self)@.content).result {
                    Ok(_) => Ok(final(self)@.content),
                    Err(message) => Err(message),
                },
                final(self)@.line(),
            ),
    {
        let ghost start = self@;
        loop
            invariant
                self.wf(),
                start == old(self)@,
                self@.text == start.text,
                document_at(start.text, start.offset, start.content) == document_at(
                    start.text,
                    self@.offset,
                    self@.content,
                ),
            decreases self@.text.len() - self@.offset,
        {
            let ghost before = self@;
            proof {
                self.lemma_wf();
                lemma_statement_advances(before.text, before.offset, before.content);
            }
            match self.peek() {
                Some(c) => {
                    if c != '@' {
                        return Err(Error::new(self.line, "found an unknown statement"));
                    }
                    match self.process_at() {
                        Ok(()) => {},
                        Err(error) => {
                            return Err(error);
                        },
                    }
                    proof {
                        self.lemma_wf();
                    }
                },
                None => {
                    return Ok(&self.content);
                },
            }
        }
    }
}

} // verus!
