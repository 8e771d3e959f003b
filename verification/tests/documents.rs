use tgff::content::{Arc, Content, Deadline, Task};
use tgff::dictionary::Dictionary;
use tgff::error::Error;
use tgff::parser::{parse, Parser};

fn failure<T>(result: Result<T, Error>) -> (String, usize) {
    match result {
        Ok(_) => panic!("expected an error"),
        Err(error) => (error.message, error.line),
    }
}

fn floats(content: &Content, table: usize, column: usize) -> Vec<f64> {
    content.tables[table].columns[column]
        .data
        .iter()
        .map(|number| number.as_str().parse::<f64>().unwrap())
        .collect()
}

fn numerals(content: &Content, table: usize, column: usize) -> Vec<String> {
    content.tables[table].columns[column]
        .data
        .iter()
        .map(|number| number.as_str().to_string())
        .collect()
}

const DOCUMENT: &str = "@HYPERPERIOD 1200\n\n@TASK_GRAPH 0 {\n\tPERIOD 300\n\n\tTASK t0_0\tTYPE 2\n\tTASK t0_1\tTYPE 1\n\n\tARC a0_0 \tFROM t0_0  TO  t0_1 TYPE 0\n\n\tHARD_DEADLINE d0_0 ON t0_1 AT 300\n}\n\n@COMMUN 0 {\n# type    version\n  1.5     2\n#------------------------------\n# bandwidth latency\n  1.0e3     0.25\n  2000      -1\n}\n";

#[test]
fn empty_document_holds_nothing() {
    let content = parse("").unwrap();
    assert_eq!(content.attributes.entries().len(), 0);
    assert_eq!(content.graphs.len(), 0);
    assert_eq!(content.tables.len(), 0);
}

#[test]
fn single_attribute() {
    let content = parse("@HYPERPERIOD 1200").unwrap();
    assert_eq!(content.attributes.get("HYPERPERIOD"), Some(&1200));
    assert_eq!(content.attributes.get("PERIOD"), None);
    assert_eq!(content.attributes.entries().len(), 1);
    assert_eq!(content.graphs.len(), 0);
    assert_eq!(content.tables.len(), 0);
}

#[test]
fn single_attribute_for_many_names_and_values() {
    for name in ["a", "Z", "abc", "A_1", "x9_", "HYPERPERIOD"] {
        for value in [0usize, 7, 12, 1200, usize::MAX] {
            let content = parse(&format!("@{} {}", name, value)).unwrap();
            assert_eq!(content.attributes.get(name), Some(&value));
            assert_eq!(content.attributes.entries().len(), 1);
            assert_eq!(content.graphs.len(), 0);
            assert_eq!(content.tables.len(), 0);
        }
    }
}

#[test]
fn statement_needs_a_name_and_a_number() {
    assert_eq!(failure(parse("@ ")), ("expected a token".to_string(), 1));
    assert_eq!(failure(parse("@abc")), ("expected a natural number".to_string(), 1));
    assert_eq!(failure(parse("@abc x")), ("expected a natural number".to_string(), 1));
    assert_eq!(failure(parse("@1")), ("expected a token".to_string(), 1));
}

#[test]
fn process_at_wants_the_sign() {
    let mut parser = Parser::new("abc 12");
    assert_eq!(failure(parser.process_at()), ("expected `@`".to_string(), 1));
}

#[test]
fn later_attribute_replaces_the_earlier() {
    let content = parse("@A 1 @B 2 @A 3").unwrap();
    assert_eq!(content.attributes.get("A"), Some(&3));
    assert_eq!(content.attributes.get("B"), Some(&2));
    let names: Vec<&str> =
        content.attributes.entries().iter().map(|entry| entry.name.as_str()).collect();
    assert_eq!(names, vec!["A", "B"]);
}

#[test]
fn dictionary_binds_names() {
    let mut dictionary: Dictionary<usize> = Dictionary::new();
    assert_eq!(dictionary.get("a"), None);
    dictionary.insert("a".to_string(), 1);
    dictionary.insert("b".to_string(), 2);
    dictionary.insert("a".to_string(), 3);
    assert_eq!(dictionary.get("a"), Some(&3));
    assert_eq!(dictionary.get("b"), Some(&2));
    assert_eq!(dictionary.get("ab"), None);
    assert_eq!(dictionary.get(""), None);
    assert_eq!(dictionary.entries().len(), 2);
}

#[test]
fn whole_document() {
    let content = parse(DOCUMENT).unwrap();
    assert_eq!(content.attributes.get("HYPERPERIOD"), Some(&1200));
    assert_eq!(content.graphs.len(), 1);
    let graph = &content.graphs[0];
    assert_eq!(graph.name, "TASK_GRAPH");
    assert_eq!(graph.id, 0);
    assert_eq!(graph.attributes.get("PERIOD"), Some(&300));
    assert_eq!(graph.tasks, vec![Task { id: 0, kind: 2 }, Task { id: 1, kind: 1 }]);
    assert_eq!(graph.arcs, vec![Arc { id: 0, from: 0, to: 1, kind: 0 }]);
    assert_eq!(graph.deadlines, vec![Deadline { id: 0, on: 1, at: 300 }]);
    assert_eq!(content.tables.len(), 1);
    let table = &content.tables[0];
    assert_eq!(table.name, "COMMUN");
    assert_eq!(table.id, 0);
    assert_eq!(table.attributes.get("type").unwrap().as_str(), "1.5");
    assert_eq!(table.attributes.get("version").unwrap().as_str(), "2");
    assert_eq!(table.columns.len(), 2);
    assert_eq!(table.columns[0].name, "bandwidth");
    assert_eq!(table.columns[1].name, "latency");
    assert_eq!(numerals(&content, 0, 0), vec!["1.0e3", "2000"]);
    assert_eq!(numerals(&content, 0, 1), vec!["0.25", "-1"]);
    assert_eq!(floats(&content, 0, 0), vec![1000.0, 2000.0]);
    assert_eq!(floats(&content, 0, 1), vec![0.25, -1.0]);
}

#[test]
fn process_returns_the_content_of_the_parser() {
    let mut parser = Parser::new("@A 1 @G 2 { TASK t_3 TYPE 4 }");
    {
        let content = parser.process().unwrap();
        assert_eq!(content.attributes.get("A"), Some(&1));
        assert_eq!(content.graphs[0].tasks, vec![Task { id: 3, kind: 4 }]);
    }
    assert_eq!(parser.content().graphs.len(), 1);
    assert_eq!(parser.peek(), None);
    assert!(parser.process().is_ok());
}

#[test]
fn order_of_the_text_is_kept() {
    let content = parse("@B 1 {} @A 0 {#\n#--\n#\n} @C 2 { TASK x_9 TYPE 1 TASK x_2 TYPE 3 }").unwrap();
    let graphs: Vec<(&str, usize)> =
        content.graphs.iter().map(|graph| (graph.name.as_str(), graph.id)).collect();
    assert_eq!(graphs, vec![("B", 1), ("C", 2)]);
    assert_eq!(content.tables[0].name, "A");
    assert_eq!(content.graphs[1].tasks, vec![Task { id: 9, kind: 1 }, Task { id: 2, kind: 3 }]);
}

#[test]
fn unknown_statement() {
    assert_eq!(failure(parse("abc")), ("found an unknown statement".to_string(), 1));
    assert_eq!(failure(parse(" @A 1")), ("found an unknown statement".to_string(), 1));
    assert_eq!(failure(parse("@A 1\n\n}")), ("found an unknown statement".to_string(), 3));
}

#[test]
fn unclosed_block() {
    assert_eq!(failure(parse("@G 0 {")), ("cannot find the end of a block".to_string(), 1));
    assert_eq!(
        failure(parse("@G 0 {\n TASK t_1 TYPE 2\n")),
        ("cannot find the end of a block".to_string(), 3)
    );
    assert_eq!(
        failure(parse("@G 0 {\n TASK t_1 TYPE 2\n 5 }")),
        ("cannot find the end of a block".to_string(), 3)
    );
}

#[test]
fn graph_is_kept_when_its_block_is_not_closed() {
    let mut parser = Parser::new("{ TASK t_1 TYPE 2 ");
    assert!(parser.process_block("G".to_string(), 5).is_err());
    assert_eq!(parser.content().graphs.len(), 1);
    assert_eq!(parser.content().graphs[0].name, "G");
    assert_eq!(parser.content().graphs[0].id, 5);
}

#[test]
fn process_block_wants_a_brace() {
    let mut parser = Parser::new("TASK");
    assert_eq!(failure(parser.process_block(String::new(), 0)), ("expected `{`".to_string(), 1));
}

#[test]
fn graph_items_fail_where_a_part_is_missing() {
    let cases = [
        ("TASK abc TYPE 2", "expected an id"),
        ("TASK t_1 SORT 2", "expected `TYPE`"),
        ("TASK t_1 TYPE x", "expected a natural number"),
        ("ARC a_1 TO t_1", "expected `FROM`"),
        ("ARC a_1 FROM 5", "expected an id"),
        ("ARC a_1 FROM t_1 t_2", "expected `TO`"),
        ("ARC a_1 FROM t_1 TO t2", "expected an id"),
        ("ARC a_1 FROM t_1 TO t_2 2", "expected `TYPE`"),
        ("ARC a_1 FROM t_1 TO t_2 TYPE", "expected a natural number"),
        ("HARD_DEADLINE d_1 AT 5", "expected `ON`"),
        ("HARD_DEADLINE d_1 ON t_1 5", "expected `AT`"),
        ("HARD_DEADLINE d_1 ON t_1 AT t", "expected a natural number"),
        ("PERIOD x", "expected a natural number"),
    ];
    for (text, message) in cases {
        let mut parser = Parser::new(text);
        assert_eq!(
            failure(parser.process_graph(String::new(), 0)),
            (message.to_string(), 1),
            "{}",
            text
        );
        assert_eq!(parser.content().graphs.len(), 0);
    }
}

#[test]
fn keyword_is_matched_as_a_whole() {
    let mut parser = Parser::new("TASKS 3 task 4");
    assert!(parser.process_graph("G".to_string(), 1).is_ok());
    let graph = &parser.content().graphs[0];
    assert_eq!(graph.attributes.get("TASKS"), Some(&3));
    assert_eq!(graph.attributes.get("task"), Some(&4));
    assert_eq!(graph.tasks.len(), 0);
}

#[test]
fn table_fails_where_a_part_is_missing() {
    let cases = [
        ("a 1", "expected `#`", 1),
        ("# a b 1", "expected a real number", 1),
        ("# a\n1\n# b", "expected a comment line", 3),
        ("# a\n1\n#--\nb", "expected `#`", 4),
        ("# a\n1\n#--\n# b c\n1 2\n3 }", "expected a real number", 6),
        ("# a\n1\n#--\n# b c\n1 2\n3", "expected a real number", 6),
        ("# a\n1\n#--\n# b c\n1 x", "expected a real number", 5),
    ];
    for (text, message, line) in cases {
        let mut parser = Parser::new(text);
        assert_eq!(
            failure(parser.process_table(String::new(), 0)),
            (message.to_string(), line),
            "{}",
            text
        );
        assert_eq!(parser.content().tables.len(), 0);
    }
}

#[test]
fn short_row_fails_in_a_document() {
    assert_eq!(
        failure(parse("@T 0 {\n# a\n 1\n#--\n# x y z\n 1 2 3\n 4 5\n}")),
        ("expected a real number".to_string(), 8)
    );
}

#[test]
fn columns_take_one_number_of_each_row() {
    let content = parse("@T 3 {#\n#-\n# a b c\n1 2 3\n4 5 6\n7 8 9\n10 11 12}").unwrap();
    let table = &content.tables[0];
    assert_eq!(table.id, 3);
    assert_eq!(table.attributes.entries().len(), 0);
    assert_eq!(floats(&content, 0, 0), vec![1.0, 4.0, 7.0, 10.0]);
    assert_eq!(floats(&content, 0, 1), vec![2.0, 5.0, 8.0, 11.0]);
    assert_eq!(floats(&content, 0, 2), vec![3.0, 6.0, 9.0, 12.0]);
}

#[test]
fn table_without_rows() {
    let content = parse("@T 0 {# a\n1\n#--\n# x y\n}").unwrap();
    assert_eq!(content.tables[0].columns.len(), 2);
    assert_eq!(content.tables[0].columns[0].data.len(), 0);
    assert_eq!(content.tables[0].columns[1].data.len(), 0);
}

#[test]
fn table_without_columns_has_no_rows() {
    let content = parse("@T 0 {#\n#--\n#\n}").unwrap();
    assert_eq!(content.tables[0].columns.len(), 0);
    assert_eq!(
        failure(parse("@T 0 {#\n#--\n#\n1 2 3}")),
        ("cannot find the end of a block".to_string(), 4)
    );
}

#[test]
fn later_attribute_of_a_table_replaces_the_earlier() {
    let content = parse("@T 0 {# a b a\n1 2 3\n#--\n#\n}").unwrap();
    let table = &content.tables[0];
    assert_eq!(table.attributes.get("a").unwrap().as_str(), "3");
    assert_eq!(table.attributes.get("b").unwrap().as_str(), "2");
}

#[test]
fn blanks_between_tokens_do_not_matter() {
    let spaced = "@HYPERPERIOD\t\t1200 \n \n\n@TASK_GRAPH   0\n{\n\n\n\tPERIOD\n300\n\n\tTASK \n t0_0  \tTYPE\n\n2\n\tTASK t0_1\tTYPE 1\n\n\tARC a0_0 \tFROM   t0_0\nTO\tt0_1 TYPE 0\n\n\tHARD_DEADLINE d0_0 ON t0_1 AT 300\n}\n\n@COMMUN 0 {\n#\n\ntype    version\n  1.5  \n   2\n#------------------------------\n\n#\tbandwidth latency\n  1.0e3\n0.25\n  2000      -1\n\n\n}\n\n\n";
    let first = parse(DOCUMENT).unwrap();
    let second = parse(spaced).unwrap();
    assert_eq!(first.attributes.get("HYPERPERIOD"), second.attributes.get("HYPERPERIOD"));
    assert_eq!(first.graphs[0].name, second.graphs[0].name);
    assert_eq!(first.graphs[0].attributes.get("PERIOD"), second.graphs[0].attributes.get("PERIOD"));
    assert_eq!(first.graphs[0].tasks, second.graphs[0].tasks);
    assert_eq!(first.graphs[0].arcs, second.graphs[0].arcs);
    assert_eq!(first.graphs[0].deadlines, second.graphs[0].deadlines);
    assert_eq!(first.tables[0].attributes.get("type"), second.tables[0].attributes.get("type"));
    assert_eq!(first.tables[0].columns[0].name, second.tables[0].columns[0].name);
    assert_eq!(numerals(&first, 0, 0), numerals(&second, 0, 0));
    assert_eq!(numerals(&first, 0, 1), numerals(&second, 0, 1));
}

#[test]
fn blank_lines_move_the_line_of_a_later_error() {
    assert_eq!(failure(parse("@A 1 @B x")), ("expected a natural number".to_string(), 1));
    assert_eq!(failure(parse("@A 1\n\n\n@B x")), ("expected a natural number".to_string(), 4));
    assert_eq!(failure(parse("@A 1\t@B\n\nx")), ("expected a natural number".to_string(), 3));
    assert_eq!(failure(parse("@A x \n\n @B 1")), ("expected a natural number".to_string(), 1));
}

#[test]
fn parsing_twice_gives_the_same() {
    let first = parse(DOCUMENT).unwrap();
    let second = parse(DOCUMENT).unwrap();
    assert_eq!(format!("{:?}", first), format!("{:?}", second));
    let first = failure(parse("@A 1\n@B"));
    let second = failure(parse("@A 1\n@B"));
    assert_eq!(first, second);
    assert_eq!(first, ("expected a natural number".to_string(), 2));
}
