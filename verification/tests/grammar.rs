use tgff::content::{Column, Table};
use tgff::parser::Parser;
use tgff::reals::Real;

fn value(number: &Real) -> f64 {
    number.as_str().parse::<f64>().unwrap()
}

fn values(column: &Column) -> Vec<f64> {
    column.data.iter().map(value).collect()
}

fn attribute(table: &Table, name: &str) -> f64 {
    value(table.attributes.get(name).unwrap())
}

#[test]
fn process_at() {
    assert!(Parser::new("@abc 12").process_at().is_ok());
    assert!(Parser::new("@ ").process_at().is_err());
    assert!(Parser::new("@abc").process_at().is_err());
}

#[test]
fn process_block() {
    assert!(Parser::new("{}").process_block(String::new(), 0).is_ok());
}

#[test]
fn process_graph() {
    let mut parser = Parser::new("TASK t0_0\tTYPE 2   ");
    assert!(parser.process_graph(String::new(), 0).is_ok());
    {
        let task = &parser.content().graphs[0].tasks[0];
        assert_eq!(task.id, 0);
        assert_eq!(task.kind, 2);
    }

    parser = Parser::new("ARC a0_42 \tFROM t0_0  TO  t0_1 TYPE 35   ");
    assert!(parser.process_graph(String::new(), 0).is_ok());
    {
        let arc = &parser.content().graphs[0].arcs[0];
        assert_eq!(arc.id, 42);
        assert_eq!(arc.from, 0);
        assert_eq!(arc.to, 1);
        assert_eq!(arc.kind, 35);
    }

    parser = Parser::new("HARD_DEADLINE d0_9 ON t0_12 AT 1000   ");
    assert!(parser.process_graph(String::new(), 0).is_ok());
    {
        let deadline = &parser.content().graphs[0].deadlines[0];
        assert_eq!(deadline.id, 9);
        assert_eq!(deadline.on, 12);
        assert_eq!(deadline.at, 1000);
    }
}

#[test]
fn process_table() {
    let mut parser = Parser::new("# foo\n 70.07\n#--\n# bar baz\n1 2 3 4 ");
    assert!(parser.process_table(String::new(), 0).is_ok());
    let table = &parser.content().tables[0];
    assert_eq!(attribute(table, "foo"), 70.07);
    assert_eq!(table.columns[0].name, "bar".to_string());
    assert_eq!(table.columns[1].name, "baz".to_string());
    assert_eq!(values(&table.columns[0]), vec![1.0, 3.0]);
    assert_eq!(values(&table.columns[1]), vec![2.0, 4.0]);
}

#[test]
fn skip_char() {
    let mut parser = Parser::new("#  \t\n  abc");
    assert!(parser.skip_char('#').is_ok());
    assert_eq!(parser.next().unwrap(), 'a');
}

#[test]
fn skip_str() {
    let mut parser = Parser::new("abc  \t\n  xyz");
    assert!(parser.skip_str("abc").is_ok());
    assert_eq!(parser.next().unwrap(), 'x');
}

#[test]
fn skip_void() {
    let mut parser = Parser::new("  \t  abc");
    parser.skip_void();
    assert_eq!(parser.next().unwrap(), 'a');
}

#[test]
fn skip_comment() {
    let mut parser = Parser::new("#--------------   \n abc");
    assert!(parser.skip_comment().is_ok());
    assert_eq!(parser.next().unwrap(), 'a');
}

#[test]
fn get_token() {
    assert_eq!(Parser::new("AZ xyz").get_token().unwrap(), String::from("AZ"));
    assert_eq!(Parser::new("az xyz").get_token().unwrap(), String::from("az"));
    assert_eq!(Parser::new("AZ_az_09 xyz").get_token().unwrap(), String::from("AZ_az_09"));
}

#[test]
fn get_id() {
    assert_eq!(Parser::new("t0_42").get_id().unwrap(), 42);
}

#[test]
fn get_natural() {
    assert_eq!(Parser::new("09").get_natural().unwrap(), 9);
}

#[test]
fn get_real() {
    assert_eq!(value(&Parser::new("-1").get_real().unwrap()), -1.0);
    assert_eq!(value(&Parser::new("0.1").get_real().unwrap()), 0.1);
    assert_eq!(value(&Parser::new("1.2e3").get_real().unwrap()), 1.2e3);
    assert_eq!(value(&Parser::new("1.2e+3").get_real().unwrap()), 1.2e3);
    assert_eq!(value(&Parser::new("-1.2e-3").get_real().unwrap()), -1.2e-3);
}
