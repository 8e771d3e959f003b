//! What a document holds: attributes, task graphs and data tables.

use crate::dictionary::Dictionary;
use crate::reals::Real;
use vstd::prelude::*;

verus! {

/// A node of a task graph.
#[derive(Clone, Copy, Debug, PartialEq, Eq)]
pub struct Task {
    pub id: usize,
    pub kind: usize,
}

/// A directed edge between two tasks, which it names by their ids.
#[derive(Clone, Copy, Debug, PartialEq, Eq)]
pub struct Arc {
    pub id: usize,
    pub from: usize,
    pub to: usize,
    pub kind: usize,
}

/// A deadline `at` which the task `on` has to be done.
#[derive(Clone, Copy, Debug, PartialEq, Eq)]
pub struct Deadline {
    pub id: usize,
    pub on: usize,
    pub at: usize,
}

/// A task graph.
#[derive(Debug)]
pub struct Graph {
    pub name: String,
    pub id: usize,
    pub attributes: Dictionary<usize>,
    pub tasks: Vec<Task>,
    pub arcs: Vec<Arc>,
    pub deadlines: Vec<Deadline>,
}

/// The mathematical content of a [`Graph`].
pub struct GraphView {
    pub name: Seq<char>,
    pub id: usize,
    pub attributes: Map<Seq<char>, usize>,
    pub tasks: Seq<Task>,
    pub arcs: Seq<Arc>,
    pub deadlines: Seq<Deadline>,
}

/// A named column of a table.
#[derive(Debug)]
pub struct Column {
    pub name: String,
    pub data: Vec<Real>,
}

/// The mathematical content of a [`Column`]: each number as its numeral.
pub struct ColumnView {
    pub name: Seq<char>,
    pub data: Seq<Seq<char>>,
}

/// A table of real numbers with attributes of its own.
#[derive(Debug)]
pub struct Table {
    pub name: String,
    pub id: usize,
    pub attributes: Dictionary<Real>,
    pub columns: Vec<Column>,
}

/// The mathematical content of a [`Table`].
pub struct TableView {
    pub name: Seq<char>,
    pub id: usize,
    pub attributes: Map<Seq<char>, Seq<char>>,
    pub columns: Seq<ColumnView>,
}

/// Everything that a document holds.
#[derive(Debug)]
pub struct Content {
    pub attributes: Dictionary<usize>,
    pub graphs: Vec<Graph>,
    pub tables: Vec<Table>,
}

/// The mathematical content of a [`Content`].
pub struct ContentView {
    pub attributes: Map<Seq<char>, usize>,
    pub graphs: Seq<GraphView>,
    pub tables: Seq<TableView>,
}

/// The numerals of a sequence of numbers.
pub open spec fn numerals(data: Seq<Real>) -> Seq<Seq<char>> {
    Seq::new(data.len(), |i: int| data[i]@)
}

pub open spec fn column_views(columns: Seq<Column>) -> Seq<ColumnView> {
    Seq::new(columns.len(), |i: int| columns[i]@)
}

pub open spec fn graph_views(graphs: Seq<Graph>) -> Seq<GraphView> {
    Seq::new(graphs.len(), |i: int| graphs[i]@)
}

pub open spec fn table_views(tables: Seq<Table>) -> Seq<TableView> {
    Seq::new(tables.len(), |i: int| tables[i]@)
}

impl View for Task {
    type V = Task;

    open spec fn view(&self) -> Task {
        *self
    }
}

impl View for Arc {
    type V = Arc;

    open spec fn view(&self) -> Arc {
        *self
    }
}

impl View for Deadline {
    type V = Deadline;

    open spec fn view(&self) -> Deadline {
        *self
    }
}

impl View for Graph {
    type V = GraphView;

    open spec fn view(&self) -> GraphView {
        GraphView {
            name: self.name@,
            id: self.id,
            attributes: self.attributes@,
            tasks: self.tasks@,
            arcs: self.arcs@,
            deadlines: self.deadlines@,
        }
    }
}

impl View for Column {
    type V = ColumnView;

    open spec fn view(&self) -> ColumnView {
        ColumnView { name: self.name@, data: numerals(self.data@) }
    }
}

impl View for Table {
    type V = TableView;

    open spec fn view(&self) -> TableView {
        TableView {
            name: self.name@,
            id: self.id,
            attributes: self.attributes@,
            columns: column_views(self.columns@),
        }
    }
}

impl View for Content {
    type V = ContentView;

    open spec fn view(&self) -> ContentView {
        ContentView {
            attributes: self.attributes@,
            graphs: graph_views(self.graphs@),
            tables: table_views(self.tables@),
        }
    }
}

impl GraphView {
    /// A graph that has its name and id and nothing else.
    pub open spec fn empty(name: Seq<char>, id: usize) -> GraphView {
        GraphView {
            name,
            id,
            attributes: Map::empty(),
            tasks: Seq::empty(),
            arcs: Seq::empty(),
            deadlines: Seq::empty(),
        }
    }
}

impl ContentView {
    /// A document that holds nothing.
    pub open spec fn empty() -> ContentView {
        ContentView { attributes: Map::empty(), graphs: Seq::empty(), tables: Seq::empty() }
    }
}

impl Task {
    pub fn new(id: usize, kind: usize) -> (r: Task)
        ensures
            r == (Task { id, kind }),
    {
        Task { id, kind }
    }
}

impl Arc {
    pub fn new(id: usize, from: usize, to: usize, kind: usize) -> (r: Arc)
        ensures
            r == (Arc { id, from, to, kind }),
    {
        Arc { id, from, to, kind }
    }
}

impl Deadline {
    pub fn new(id: usize, on: usize, at: usize) -> (r: Deadline)
        ensures
            r == (Deadline { id, on, at }),
    {
        Deadline { id, on, at }
    }
}

impl Graph {
    /// A graph without attributes, tasks, arcs and deadlines.
    pub fn new(name: String, id: usize) -> (r: Graph)
        ensures
            r@ == GraphView::empty(name@, id),
    {
        Graph {
            name,
            id,
            attributes: Dictionary::new(),
            tasks: Vec::new(),
            arcs: Vec::new(),
            deadlines: Vec::new(),
        }
    }
}

impl Column {
    /// A column without data.
    pub fn new(name: String) -> (r: Column)
        ensures
            r@ == (ColumnView { name: name@, data: Seq::empty() }),
    {
        let r = Column { name, data: Vec::new() };
        assert(numerals(r.data@) =~= Seq::empty());
        r
    }
}

impl Table {
    /// A table without attributes and columns.
    pub fn new(name: String, id: usize) -> (r: Table)
        ensures
            r@ == (TableView {
                name: name@,
                id,
                attributes: Map::empty(),
                columns: Seq::empty(),
            }),
    {
        let r = Table { name, id, attributes: Dictionary::new(), columns: Vec::new() };
        assert(column_views(r.columns@) =~= Seq::empty());
        r
    }
}

impl Content {
    /// A document that holds nothing.
    pub fn new() -> (r: Content)
        ensures
            r@ == ContentView::empty(),
    {
        let r = Content { attributes: Dictionary::new(), graphs: Vec::new(), tables: Vec::new() };
        assert(graph_views(r.graphs@) =~= Seq::empty());
        assert(table_views(r.tables@) =~= Seq::empty());
        r
    }
}

} // verus!
