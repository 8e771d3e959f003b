//! Blanks between tokens do not matter: where blanks stand in a text, other
//! blanks may stand in their place. What parsing gives stays the same, but
//! for the line on which a later error is raised.

use crate::chars::{
    is_longest_run, is_void, lemma_longest_run_is_run, lemma_run_is_longest, line_at, newlines,
    run, Pattern,
};
use crate::content::{ContentView, GraphView};
use crate::grammar::{
    arc_at, block_at, char_at, comment_at, deadline_at, document, document_at, get_id_at,
    get_natural_at, get_real_at, get_token_at, graph_at, graph_into, id_at, item_at, literal_at,
    names_at, natural_at, peek_at, read_at, real_at, reals_at, rows_at, statement_at, table_at,
    lemma_item_advances, lemma_reals_advance, lemma_statement_advances, lemma_tokens_advance,
    table_into, task_at, token_at, void_end, Failure, Outcome,
};
use vstd::prelude::*;

verus! {

/// A text in which blanks are exchanged for other blanks: between `head`
/// and `tail` stood `gap`, and now stands `other`.
pub struct Edit {
    pub head: Seq<char>,
    pub gap: Seq<char>,
    pub other: Seq<char>,
    pub tail: Seq<char>,
}

/// One blank or more, and nothing else.
pub open spec fn is_blank(v: Seq<char>) -> bool {
    &&& v.len() > 0
    &&& forall|i: int| 0 <= i < v.len() ==> is_void(#[trigger] v[i])
}

/// A rule that accepts no blank.
pub open spec fn refuses_blanks(p: Pattern) -> bool {
    forall|i: int, c: char| is_void(c) ==> !#[trigger] p.accepts(i, c)
}

impl Edit {
    /// Blanks are exchanged for blanks.
    pub open spec fn wf(self) -> bool {
        is_blank(self.gap) && is_blank(self.other)
    }

    /// The text before the exchange.
    pub open spec fn first(self) -> Seq<char> {
        self.head + self.gap + self.tail
    }

    /// The text after the exchange.
    pub open spec fn second(self) -> Seq<char> {
        self.head + self.other + self.tail
    }

    /// The place of the second text that answers to the place `p` of the
    /// first.
    pub open spec fn moved(self, p: int) -> int {
        if p <= self.head.len() {
            p
        } else {
            p - self.gap.len() + self.other.len()
        }
    }

    /// The place `p` of the first text does not lie within the blanks that
    /// are exchanged.
    pub open spec fn outside(self, p: int) -> bool {
        0 <= p <= self.head.len() || self.head.len() + self.gap.len() <= p <= self.first().len()
    }

    /// The place `p` of the first text lies behind the blanks that are
    /// exchanged, or before them at a character that is no blank.
    pub open spec fn clear(self, p: int) -> bool {
        (0 <= p < self.head.len() && !is_void(self.head[p])) || self.head.len() + self.gap.len()
            <= p <= self.first().len()
    }

    /// The two texts agree before the exchanged blanks and behind them.
    proof fn lemma_texts(self)
        requires
            self.wf(),
        ensures
            self.first().len() == self.head.len() + self.gap.len() + self.tail.len(),
            self.second().len() == self.head.len() + self.other.len() + self.tail.len(),
            forall|i: int|
                0 <= i < self.head.len() ==> #[trigger] self.first()[i] == self.head[i]
                    && #[trigger] self.second()[i] == self.head[i],
            forall|i: int|
                self.head.len() <= i < self.head.len() + self.gap.len() ==> is_void(
                    #[trigger] self.first()[i],
                ),
            forall|i: int|
                self.head.len() <= i < self.head.len() + self.other.len() ==> is_void(
                    #[trigger] self.second()[i],
                ),
            forall|i: int|
                self.head.len() + self.gap.len() <= i < self.first().len()
                    ==> #[trigger] self.first()[i] == self.second()[self.moved(i)],
    {
        assert forall|i: int|
            self.head.len() <= i < self.head.len() + self.gap.len() implies is_void(
            #[trigger] self.first()[i],
        ) by {
            assert(self.first()[i] == self.gap[i - self.head.len()]);
        }
        assert forall|i: int|
            self.head.len() <= i < self.head.len() + self.other.len() implies is_void(
            #[trigger] self.second()[i],
        ) by {
            assert(self.second()[i] == self.other[i - self.head.len()]);
        }
    }

    /// A run of characters that are no blanks is the same in both texts.
    proof fn lemma_run(self, p: Pattern, q: int)
        requires
            self.wf(),
            self.clear(q),
            refuses_blanks(p),
        ensures
            run(self.second(), p, self.moved(q)) == run(self.first(), p, q),
            run(self.first(), p, q) >= 0,
            self.outside(q + run(self.first(), p, q)),
            self.moved(q + run(self.first(), p, q)) == self.moved(q) + run(self.first(), p, q),
            self.second().subrange(self.moved(q), self.moved(q) + run(self.first(), p, q))
                == self.first().subrange(q, q + run(self.first(), p, q)),
    {
        self.lemma_texts();
        let s1 = self.first();
        let s2 = self.second();
        let n = run(s1, p, q);
        let q2 = self.moved(q);
        lemma_run_is_longest(s1, p, q);
        if q < self.head.len() {
            if q + n > self.head.len() {
                let k = self.head.len() - q;
                assert(p.accepts(k, s1[q + k]));
                assert(is_void(s1[self.head.len() as int]));
            }
            assert(is_void(s2[self.head.len() as int]));
            assert forall|k: int| 0 <= k < n implies #[trigger] p.accepts(k, s2[q2 + k]) by {
                assert(p.accepts(k, s1[q + k]));
            }
            assert(is_longest_run(s2, p, q2, n));
        } else {
            assert forall|k: int| 0 <= k < n implies #[trigger] p.accepts(k, s2[q2 + k]) by {
                assert(p.accepts(k, s1[q + k]));
                assert(s1[q + k] == s2[self.moved(q + k)]);
            }
            if q + n < s1.len() {
                assert(s1[q + n] == s2[self.moved(q + n)]);
            }
            assert(is_longest_run(s2, p, q2, n));
        }
        lemma_longest_run_is_run(s2, p, q2, n);
        assert(s2.subrange(q2, q2 + n) =~= s1.subrange(q, q + n)) by {
            assert forall|k: int| 0 <= k < n implies #[trigger] s2.subrange(q2, q2 + n)[k]
                == s1.subrange(q, q + n)[k] by {
                if q >= self.head.len() {
                    assert(s1[q + k] == s2[self.moved(q + k)]);
                }
            }
        }
    }

    /// A run of blanks ends in both texts at places that answer to each
    /// other, and not within the blanks that are exchanged.
    proof fn lemma_void(self, q: int)
        requires
            self.wf(),
            self.outside(q),
        ensures
            void_end(self.second(), self.moved(q)) == self.moved(void_end(self.first(), q)),
            self.clear(void_end(self.first(), q)),
    {
        self.lemma_texts();
        let s1 = self.first();
        let s2 = self.second();
        let p = Pattern::Void;
        let n = run(s1, p, q);
        let q2 = self.moved(q);
        let edge = self.head.len() as int;
        lemma_run_is_longest(s1, p, q);
        if q > edge {
            assert forall|k: int| 0 <= k < n implies #[trigger] p.accepts(k, s2[q2 + k]) by {
                assert(p.accepts(k, s1[q + k]));
                assert(s1[q + k] == s2[self.moved(q + k)]);
            }
            if q + n < s1.len() {
                assert(s1[q + n] == s2[self.moved(q + n)]);
            }
            assert(is_longest_run(s2, p, q2, n));
            lemma_longest_run_is_run(s2, p, q2, n);
        } else if q + n < edge {
            assert forall|k: int| 0 <= k < n implies #[trigger] p.accepts(k, s2[q2 + k]) by {
                assert(p.accepts(k, s1[q + k]));
            }
            assert(is_longest_run(s2, p, q2, n));
            lemma_longest_run_is_run(s2, p, q2, n);
        } else {
            if q + n < edge + self.gap.len() {
                assert(is_void(s1[q + n]));
            }
            let m = n - self.gap.len() + self.other.len();
            assert forall|k: int| 0 <= k < m implies #[trigger] p.accepts(k, s2[q2 + k]) by {
                if q + k < edge {
                    assert(p.accepts(k, s1[q + k]));
                } else if q + k < edge + self.other.len() {
                    assert(is_void(s2[q + k]));
                } else {
                    let j = k - self.other.len() + self.gap.len();
                    assert(p.accepts(j, s1[q + j]));
                    assert(s1[q + j] == s2[self.moved(q + j)]);
                }
            }
            if q + n < s1.len() {
                assert(s1[q + n] == s2[self.moved(q + n)]);
            }
            assert(is_longest_run(s2, p, q2, m));
            lemma_longest_run_is_run(s2, p, q2, m);
        }
    }
    /// What was read in the second text is what was read in the first, and
    /// reading stopped at places that answer to each other.
    pub open spec fn same<T>(self, first: (T, int), second: (T, int)) -> bool {
        &&& second.0 == first.0
        &&& self.outside(first.1)
        &&& second.1 == self.moved(first.1)
    }

    /// Each reader of a single token reads the same in both texts.
    proof fn lemma_tokens(self, q: int)
        requires
            self.wf(),
            self.clear(q),
        ensures
            peek_at(self.second(), self.moved(q)) == peek_at(self.first(), q),
            forall|p: Pattern|
                refuses_blanks(p) ==> self.same(
                    #[trigger] read_at(self.first(), p, q),
                    read_at(self.second(), p, self.moved(q)),
                ),
            self.same(token_at(self.first(), q), token_at(self.second(), self.moved(q))),
            self.same(id_at(self.first(), q), id_at(self.second(), self.moved(q))),
            self.same(natural_at(self.first(), q), natural_at(self.second(), self.moved(q))),
            self.same(real_at(self.first(), q), real_at(self.second(), self.moved(q))),
            self.same(get_token_at(self.first(), q), get_token_at(self.second(), self.moved(q))),
            self.same(get_id_at(self.first(), q), get_id_at(self.second(), self.moved(q))),
            self.same(
                get_natural_at(self.first(), q),
                get_natural_at(self.second(), self.moved(q)),
            ),
            self.same(get_real_at(self.first(), q), get_real_at(self.second(), self.moved(q))),
            self.clear(token_at(self.first(), q).1),
            self.clear(natural_at(self.first(), q).1),
            self.clear(real_at(self.first(), q).1),
            forall|c: char|
                self.same(
                    #[trigger] char_at(self.first(), q, c),
                    char_at(self.second(), self.moved(q), c),
                ),
            forall|c: char|
                (#[trigger] char_at(self.first(), q, c)).0 is Ok ==> self.clear(
                    char_at(self.first(), q, c).1,
                ),
            forall|text: Seq<char>|
                refuses_blanks(Pattern::Literal(text)) ==> self.same(
                    #[trigger] literal_at(self.first(), q, text),
                    literal_at(self.second(), self.moved(q), text),
                ),
            forall|text: Seq<char>|
                refuses_blanks(Pattern::Literal(text)) && (#[trigger] literal_at(
                    self.first(),
                    q,
                    text,
                )).0 is Ok ==> self.clear(literal_at(self.first(), q, text).1),
            self.same(comment_at(self.first(), q), comment_at(self.second(), self.moved(q))),
            comment_at(self.first(), q).0 is Ok ==> self.clear(comment_at(self.first(), q).1),
    {
        self.lemma_texts();
        let s1 = self.first();
        let s2 = self.second();
        let q2 = self.moved(q);
        assert forall|p: Pattern| refuses_blanks(p) implies self.same(
            #[trigger] read_at(s1, p, q),
            read_at(s2, p, q2),
        ) by {
            self.lemma_run(p, q);
        }
        assert(refuses_blanks(Pattern::Token));
        assert(refuses_blanks(Pattern::Natural));
        assert(refuses_blanks(Pattern::Real));
        assert(refuses_blanks(Pattern::Comment));
        self.lemma_run(Pattern::Token, q);
        self.lemma_void(read_at(s1, Pattern::Token, q).1);
        self.lemma_run(Pattern::Natural, q);
        self.lemma_void(read_at(s1, Pattern::Natural, q).1);
        self.lemma_run(Pattern::Real, q);
        self.lemma_void(read_at(s1, Pattern::Real, q).1);
        self.lemma_run(Pattern::Comment, q);
        self.lemma_void(q + run(s1, Pattern::Comment, q));
        if q < s1.len() {
            assert(s1[q] == s2[q2]);
            self.lemma_void(q + 1);
        }
        assert forall|text: Seq<char>| refuses_blanks(Pattern::Literal(text)) implies self.same(
            #[trigger] literal_at(s1, q, text),
            literal_at(s2, q2, text),
        ) && (literal_at(s1, q, text).0 is Ok ==> self.clear(literal_at(s1, q, text).1)) by {
            self.lemma_run(Pattern::Literal(text), q);
            self.lemma_void(q + run(s1, Pattern::Literal(text), q));
        }
    }
    /// A task reads the same in both texts.
    proof fn lemma_task(self, q: int)
        requires
            self.wf(),
            self.clear(q),
        ensures
            self.same(task_at(self.first(), q), task_at(self.second(), self.moved(q))),
            task_at(self.first(), q).0 is Ok ==> self.clear(task_at(self.first(), q).1),
    {
        lemma_keywords();
        let s1 = self.first();
        self.lemma_tokens(q);
        let (id, a) = get_id_at(s1, q);
        self.lemma_tokens(a);
        let (word, b) = literal_at(s1, a, "TYPE"@);
        if word is Ok {
            self.lemma_tokens(b);
        }
    }

    /// An arc reads the same in both texts.
    proof fn lemma_arc(self, q: int)
        requires
            self.wf(),
            self.clear(q),
        ensures
            self.same(arc_at(self.first(), q), arc_at(self.second(), self.moved(q))),
            arc_at(self.first(), q).0 is Ok ==> self.clear(arc_at(self.first(), q).1),
    {
        lemma_keywords();
        let s1 = self.first();
        self.lemma_tokens(q);
        let (id, a) = get_id_at(s1, q);
        self.lemma_tokens(a);
        let (word_from, b) = literal_at(s1, a, "FROM"@);
        if word_from is Ok {
            self.lemma_tokens(b);
            let (from, c) = get_id_at(s1, b);
            self.lemma_tokens(c);
            let (word_to, d) = literal_at(s1, c, "TO"@);
            if word_to is Ok {
                self.lemma_tokens(d);
                let (to, e) = get_id_at(s1, d);
                self.lemma_tokens(e);
                let (word_type, f) = literal_at(s1, e, "TYPE"@);
                if word_type is Ok {
                    self.lemma_tokens(f);
                }
            }
        }
    }

    /// A deadline reads the same in both texts.
    proof fn lemma_deadline(self, q: int)
        requires
            self.wf(),
            self.clear(q),
        ensures
            self.same(deadline_at(self.first(), q), deadline_at(self.second(), self.moved(q))),
            deadline_at(self.first(), q).0 is Ok ==> self.clear(deadline_at(self.first(), q).1),
    {
        lemma_keywords();
        let s1 = self.first();
        self.lemma_tokens(q);
        let (id, a) = get_id_at(s1, q);
        self.lemma_tokens(a);
        let (word_on, b) = literal_at(s1, a, "ON"@);
        if word_on is Ok {
            self.lemma_tokens(b);
            let (on, c) = get_id_at(s1, b);
            self.lemma_tokens(c);
            let (word_at, d) = literal_at(s1, c, "AT"@);
            if word_at is Ok {
                self.lemma_tokens(d);
            }
        }
    }

    /// An item of a graph reads the same in both texts.
    proof fn lemma_item(self, q: int, word: Seq<char>, graph: GraphView)
        requires
            self.wf(),
            self.clear(q),
        ensures
            self.same(
                item_at(self.first(), q, word, graph),
                item_at(self.second(), self.moved(q), word, graph),
            ),
            item_at(self.first(), q, word, graph).0 is Ok ==> self.clear(
                item_at(self.first(), q, word, graph).1,
            ),
    {
        self.lemma_task(q);
        self.lemma_arc(q);
        self.lemma_deadline(q);
        self.lemma_tokens(q);
    }

    /// The body of a graph reads the same in both texts.
    proof fn lemma_graph(self, q: int, graph: GraphView)
        requires
            self.wf(),
            self.clear(q),
        ensures
            self.same(
                graph_at(self.first(), q, graph),
                graph_at(self.second(), self.moved(q), graph),
            ),
            self.clear(graph_at(self.first(), q, graph).1) || graph_at(self.first(), q, graph).0
                is Err,
        decreases self.first().len() - q,
    {
        self.lemma_texts();
        let s1 = self.first();
        self.lemma_tokens(q);
        lemma_tokens_advance(s1, q);
        let (word, a) = token_at(s1, q);
        if let Some(word) = word {
            self.lemma_item(a, word, graph);
            lemma_item_advances(s1, a, word, graph);
            lemma_item_advances(self.second(), self.moved(a), word, graph);
            let (next, b) = item_at(s1, a, word, graph);
            if let Ok(next) = next {
                self.lemma_graph(b, next);
            }
        }
    }

    /// A run of names reads the same in both texts.
    proof fn lemma_names(self, q: int)
        requires
            self.wf(),
            self.clear(q),
        ensures
            self.same(names_at(self.first(), q), names_at(self.second(), self.moved(q))),
            self.clear(names_at(self.first(), q).1),
        decreases self.first().len() - q,
    {
        self.lemma_texts();
        let s1 = self.first();
        self.lemma_tokens(q);
        lemma_tokens_advance(s1, q);
        lemma_tokens_advance(self.second(), self.moved(q));
        let (name, a) = token_at(s1, q);
        if name is Some {
            self.lemma_names(a);
        }
    }

    /// A run of real numbers reads the same in both texts.
    proof fn lemma_reals(self, q: int, n: nat)
        requires
            self.wf(),
            self.clear(q),
        ensures
            self.same(reals_at(self.first(), q, n), reals_at(self.second(), self.moved(q), n)),
            self.clear(reals_at(self.first(), q, n).1),
        decreases n,
    {
        if n > 0 {
            let s1 = self.first();
            self.lemma_tokens(q);
            let (first, a) = get_real_at(s1, q);
            if first is Ok {
                self.lemma_reals(a, (n - 1) as nat);
            }
        }
    }

    /// The rows of a table read the same in both texts.
    proof fn lemma_rows(self, q: int, width: nat)
        requires
            self.wf(),
            self.clear(q),
        ensures
            self.same(
                rows_at(self.first(), q, width),
                rows_at(self.second(), self.moved(q), width),
            ),
            self.clear(rows_at(self.first(), q, width).1),
        decreases self.first().len() - q,
    {
        self.lemma_texts();
        let s1 = self.first();
        self.lemma_tokens(q);
        if !(width == 0 || peek_at(s1, q) is None || peek_at(s1, q) == Some('}')) {
            self.lemma_reals(q, width);
            lemma_reals_advance(s1, q, width);
            lemma_reals_advance(self.second(), self.moved(q), width);
            let (row, a) = reals_at(s1, q, width);
            if row is Ok {
                self.lemma_rows(a, width);
            }
        }
    }

    /// The body of a table reads the same in both texts.
    proof fn lemma_table(self, q: int, name: Seq<char>, id: usize)
        requires
            self.wf(),
            self.clear(q),
        ensures
            self.same(
                table_at(self.first(), q, name, id),
                table_at(self.second(), self.moved(q), name, id),
            ),
            table_at(self.first(), q, name, id).0 is Ok ==> self.clear(
                table_at(self.first(), q, name, id).1,
            ),
    {
        let s1 = self.first();
        self.lemma_tokens(q);
        let (head, a) = char_at(s1, q, '#');
        if head is Ok {
            self.lemma_names(a);
            let (names, b) = names_at(s1, a);
            self.lemma_reals(b, names.len());
            let (values, c) = reals_at(s1, b, names.len());
            self.lemma_tokens(c);
            let (rule, d) = comment_at(s1, c);
            if values is Ok && rule is Ok {
                self.lemma_tokens(d);
                let (body, e) = char_at(s1, d, '#');
                if body is Ok {
                    self.lemma_names(e);
                    let (columns, f) = names_at(s1, e);
                    self.lemma_rows(f, columns.len());
                }
            }
        }
    }

    /// The step of the grammar ended in the second text as it did in the
    /// first, at a place that answers to the place in the first.
    pub open spec fn same_outcome(self, first: Outcome, second: Outcome) -> bool {
        &&& second.result == first.result
        &&& second.content == first.content
        &&& self.outside(first.end)
        &&& second.end == self.moved(first.end)
    }

    /// A block reads the same in both texts.
    proof fn lemma_block(self, q: int, name: Seq<char>, id: usize, content: ContentView)
        requires
            self.wf(),
            self.clear(q),
        ensures
            self.same_outcome(
                block_at(self.first(), q, name, id, content),
                block_at(self.second(), self.moved(q), name, id, content),
            ),
            block_at(self.first(), q, name, id, content).result is Ok ==> self.clear(
                block_at(self.first(), q, name, id, content).end,
            ),
    {
        let s1 = self.first();
        self.lemma_tokens(q);
        let (open, a) = char_at(s1, q, '{');
        if open is Ok {
            self.lemma_tokens(a);
            self.lemma_table(a, name, id);
            self.lemma_graph(a, GraphView::empty(name, id));
            let body = if peek_at(s1, a) == Some('#') {
                table_into(s1, a, name, id, content)
            } else {
                graph_into(s1, a, name, id, content)
            };
            if body.result is Ok {
                self.lemma_tokens(body.end);
            }
        }
    }

    /// A statement reads the same in both texts.
    proof fn lemma_statement(self, q: int, content: ContentView)
        requires
            self.wf(),
            self.clear(q),
        ensures
            self.same_outcome(
                statement_at(self.first(), q, content),
                statement_at(self.second(), self.moved(q), content),
            ),
            statement_at(self.first(), q, content).result is Ok ==> self.clear(
                statement_at(self.first(), q, content).end,
            ),
    {
        let s1 = self.first();
        self.lemma_tokens(q);
        let (sign, a) = char_at(s1, q, '@');
        if sign is Ok {
            self.lemma_tokens(a);
            let (name, b) = get_token_at(s1, a);
            self.lemma_tokens(b);
            let (number, c) = get_natural_at(s1, b);
            self.lemma_tokens(c);
            if name is Ok && number is Ok {
                self.lemma_block(c, name->Ok_0, number->Ok_0, content);
            }
        }
    }

    /// A document reads the same in both texts from a place that does not
    /// lie within blanks.
    proof fn lemma_document(self, q: int, content: ContentView)
        requires
            self.wf(),
            self.clear(q),
        ensures
            self.same_outcome(
                document_at(self.first(), q, content),
                document_at(self.second(), self.moved(q), content),
            ),
        decreases self.first().len() - q,
    {
        self.lemma_texts();
        let s1 = self.first();
        self.lemma_tokens(q);
        if peek_at(s1, q) == Some('@') {
            self.lemma_statement(q, content);
            lemma_statement_advances(s1, q, content);
            lemma_statement_advances(self.second(), self.moved(q), content);
            let first = statement_at(s1, q, content);
            if first.result is Ok {
                self.lemma_document(first.end, first.content);
            }
        }
    }

    /// The line of a place of the first text, and the line of the place of
    /// the second text that answers to it, differ by as many newlines as
    /// the exchange brought or took, if the place lies behind it.
    proof fn lemma_lines(self, p: int)
        requires
            self.wf(),
            self.outside(p),
        ensures
            line_at(self.second(), self.moved(p)) == if p <= self.head.len() {
                line_at(self.first(), p) as int
            } else {
                line_at(self.first(), p) - newlines(self.gap) + newlines(self.other)
            },
    {
        self.lemma_texts();
        let edge = self.head.len() as int;
        if p <= edge {
            assert(self.first().take(p) =~= self.second().take(p));
        } else {
            let rest = self.tail.take(p - edge - self.gap.len());
            assert(self.first().take(p) =~= self.head + self.gap + rest);
            assert(self.second().take(self.moved(p)) =~= self.head + self.other + rest);
            lemma_newlines_add(self.head + self.gap, rest);
            lemma_newlines_add(self.head, self.gap);
            lemma_newlines_add(self.head + self.other, rest);
            lemma_newlines_add(self.head, self.other);
        }
    }
}

/// The newlines of two texts put together are those of the one and those of
/// the other.
pub proof fn lemma_newlines_add(x: Seq<char>, y: Seq<char>)
    ensures
        newlines(x + y) == newlines(x) + newlines(y),
    decreases y.len(),
{
    if y.len() == 0 {
        assert(x + y =~= x);
    } else {
        lemma_newlines_add(x, y.drop_last());
        assert((x + y).drop_last() =~= x + y.drop_last());
    }
}

/// Blanks between tokens do not matter. Where one or more blanks stand in a
/// text, any other blanks may stand in their place: parsing gives the same
/// content or the same error message, and stops at the place that answers
/// to where it stopped before. An error raised behind the exchanged blanks
/// is reported that many lines further down as the exchange brought
/// newlines, or further up as it took.
pub proof fn lemma_blanks_do_not_matter(
    head: Seq<char>,
    gap: Seq<char>,
    other: Seq<char>,
    tail: Seq<char>,
)
    requires
        is_blank(gap),
        is_blank(other),
    ensures
        ({
            let edit = Edit { head, gap, other, tail };
            let first = document_at(head + gap + tail, 0, ContentView::empty());
            let second = document_at(head + other + tail, 0, ContentView::empty());
            &&& second.result == first.result
            &&& second.content == first.content
            &&& edit.outside(first.end)
            &&& second.end == edit.moved(first.end)
            &&& line_at(head + other + tail, second.end) == if first.end <= head.len() {
                line_at(head + gap + tail, first.end) as int
            } else {
                line_at(head + gap + tail, first.end) - newlines(gap) + newlines(other)
            }
        }),
        document(head + gap + tail) matches Ok(content) ==> document(head + other + tail) == Ok::<
            ContentView,
            Failure,
        >(content),
        document(head + gap + tail) matches Err(failure) ==> (document(head + other + tail)
            matches Err(other_failure) && other_failure.message == failure.message && (
        other_failure.line == failure.line || other_failure.line == failure.line - newlines(gap)
            + newlines(other))),
{
    let edit = Edit { head, gap, other, tail };
    edit.lemma_texts();
    let s1 = edit.first();
    let s2 = edit.second();
    if edit.clear(0) {
        edit.lemma_document(0, ContentView::empty());
    } else {
        assert(is_void(s1[0]));
        assert(is_void(s2[0]));
    }
    edit.lemma_lines(document_at(s1, 0, ContentView::empty()).end);
}

/// None of the words of the grammar holds a blank.
proof fn lemma_keywords()
    ensures
        refuses_blanks(Pattern::Literal("TYPE"@)),
        refuses_blanks(Pattern::Literal("FROM"@)),
        refuses_blanks(Pattern::Literal("TO"@)),
        refuses_blanks(Pattern::Literal("ON"@)),
        refuses_blanks(Pattern::Literal("AT"@)),
{
    reveal_strlit("TYPE");
    reveal_strlit("FROM");
    reveal_strlit("TO");
    reveal_strlit("ON");
    reveal_strlit("AT");
}

} // verus!
