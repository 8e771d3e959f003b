use tgff::chars::Rule;
use tgff::error::Error;
use tgff::numbers::{parse_id, parse_natural};
use tgff::parser::Parser;
use tgff::reals::{Decimal, Real};

fn failure<T>(result: Result<T, Error>) -> (String, usize) {
    match result {
        Ok(_) => panic!("expected an error"),
        Err(error) => (error.message, error.line),
    }
}

fn decimal(text: &str) -> Option<Decimal> {
    Real::parse(text.to_string()).unwrap().decimal()
}

#[test]
fn peek_does_not_consume() {
    let parser = Parser::new("ab");
    assert_eq!(parser.peek(), Some('a'));
    assert_eq!(parser.peek(), Some('a'));
    assert_eq!(Parser::new("").peek(), None);
}

#[test]
fn next_counts_lines() {
    let mut parser = Parser::new("a\n\nb");
    assert_eq!(parser.line(), 1);
    assert_eq!(parser.next(), Some('a'));
    assert_eq!(parser.line(), 1);
    assert_eq!(parser.next(), Some('\n'));
    assert_eq!(parser.line(), 2);
    assert_eq!(parser.next(), Some('\n'));
    assert_eq!(parser.line(), 3);
    assert_eq!(parser.next(), Some('b'));
    assert_eq!(parser.line(), 3);
    assert_eq!(parser.next(), None);
    assert_eq!(parser.next(), None);
    assert_eq!(parser.line(), 3);
}

#[test]
fn next_reads_scalar_values() {
    let mut parser = Parser::new("\u{e9}\u{1f600}x");
    assert_eq!(parser.next(), Some('\u{e9}'));
    assert_eq!(parser.next(), Some('\u{1f600}'));
    assert_eq!(parser.next(), Some('x'));
    assert_eq!(parser.next(), None);
}

#[test]
fn skip_returns_the_length_of_the_run() {
    let mut parser = Parser::new(" \t\n x");
    assert_eq!(parser.skip(&Rule::Void), 4);
    assert_eq!(parser.skip(&Rule::Void), 0);
    assert_eq!(parser.peek(), Some('x'));
    assert_eq!(parser.line(), 2);
}

#[test]
fn skip_takes_a_rule_by_the_index() {
    let mut parser = Parser::new("#--#--");
    assert_eq!(parser.skip(&Rule::Comment), 3);
    assert_eq!(parser.peek(), Some('#'));
    let mut parser = Parser::new("-#");
    assert_eq!(parser.skip(&Rule::Comment), 0);
    let mut parser = Parser::new("a_1-");
    assert_eq!(parser.skip(&Rule::Token), 3);
    let mut parser = Parser::new("_a");
    assert_eq!(parser.skip(&Rule::Token), 0);
    let mut parser = Parser::new("1a");
    assert_eq!(parser.skip(&Rule::Token), 0);
}

#[test]
fn skip_matches_a_literal_position_by_position() {
    let literal: Vec<char> = "abc".chars().collect();
    let mut parser = Parser::new("abcabc");
    assert_eq!(parser.skip(&Rule::Literal(&literal)), 3);
    assert_eq!(parser.peek(), Some('a'));
    let mut parser = Parser::new("abx");
    assert_eq!(parser.skip(&Rule::Literal(&literal)), 2);
    assert_eq!(parser.peek(), Some('x'));
}

#[test]
fn read_returns_the_run() {
    let mut parser = Parser::new("12ab");
    assert_eq!(parser.read(&Rule::Natural), Some("12".to_string()));
    assert_eq!(parser.read(&Rule::Natural), None);
    assert_eq!(parser.read(&Rule::Token), Some("ab".to_string()));
    assert_eq!(parser.read(&Rule::Token), None);
}

#[test]
fn read_token_skips_the_blanks_behind() {
    let mut parser = Parser::new("ab_1 \n\t cd");
    assert_eq!(parser.read_token(), Some("ab_1".to_string()));
    assert_eq!(parser.peek(), Some('c'));
    assert_eq!(parser.line(), 2);
}

#[test]
fn read_token_skips_blanks_even_when_nothing_is_read() {
    let mut parser = Parser::new("  \n 1");
    assert_eq!(parser.read_token(), None);
    assert_eq!(parser.peek(), Some('1'));
    assert_eq!(parser.line(), 2);
}

#[test]
fn skip_char_consumes_what_it_refuses() {
    let mut parser = Parser::new("\n#");
    assert_eq!(failure(parser.skip_char('#')), ("expected `#`".to_string(), 2));
    assert_eq!(parser.peek(), Some('#'));
    let mut parser = Parser::new("");
    assert_eq!(failure(parser.skip_char('}')), ("expected `}`".to_string(), 1));
}

#[test]
fn skip_str_stops_where_the_text_departs() {
    let mut parser = Parser::new("TYPO 1");
    assert_eq!(failure(parser.skip_str("TYPE")), ("expected `TYPE`".to_string(), 1));
    assert_eq!(parser.peek(), Some('O'));
    let mut parser = Parser::new("TY");
    assert_eq!(failure(parser.skip_str("TYPE")), ("expected `TYPE`".to_string(), 1));
    assert_eq!(parser.peek(), None);
}

#[test]
fn skip_str_takes_the_empty_literal() {
    let mut parser = Parser::new("  x");
    assert!(parser.skip_str("").is_ok());
    assert_eq!(parser.peek(), Some('x'));
}

#[test]
fn skip_comment_wants_a_dash() {
    let mut parser = Parser::new("# abc");
    assert_eq!(failure(parser.skip_comment()), ("expected a comment line".to_string(), 1));
    let mut parser = Parser::new("--");
    assert_eq!(failure(parser.skip_comment()), ("expected a comment line".to_string(), 1));
    let mut parser = Parser::new("#-x");
    assert!(parser.skip_comment().is_ok());
    assert_eq!(parser.peek(), Some('x'));
}

#[test]
fn get_token_fails_on_a_digit() {
    let mut parser = Parser::new("\n\n1abc");
    parser.skip_void();
    assert_eq!(failure(parser.get_token()), ("expected a token".to_string(), 3));
}

#[test]
fn id_is_the_second_field() {
    assert_eq!(parse_id("t0_42"), Some(42));
    assert_eq!(parse_id("t0_1_2"), Some(1));
    assert_eq!(parse_id("a_007"), Some(7));
    assert_eq!(parse_id("abc"), None);
    assert_eq!(parse_id("abc_"), None);
    assert_eq!(parse_id("a__1"), None);
    assert_eq!(parse_id("a_1b"), None);
    assert_eq!(parse_id("a_b_1"), None);
    assert_eq!(parse_id(""), None);
}

#[test]
fn get_id_fails_without_an_underscore() {
    assert_eq!(failure(Parser::new("abc").get_id()), ("expected an id".to_string(), 1));
    assert_eq!(failure(Parser::new("12").get_id()), ("expected an id".to_string(), 1));
}

#[test]
fn read_id_consumes_the_identifier_it_refuses() {
    let mut parser = Parser::new("abc def_1");
    assert_eq!(parser.read_id(), None);
    assert_eq!(parser.read_id(), Some(1));
}

#[test]
fn natural_is_read_in_decimal() {
    assert_eq!(parse_natural("0"), Some(0));
    assert_eq!(parse_natural("000123"), Some(123));
    assert_eq!(parse_natural(""), None);
    assert_eq!(parse_natural("12a"), None);
    assert_eq!(parse_natural("-1"), None);
    assert_eq!(parse_natural("+1"), None);
}

#[test]
fn natural_has_to_fit_the_machine_word() {
    let largest = usize::MAX.to_string();
    assert_eq!(parse_natural(&largest), Some(usize::MAX));
    let mut too_large = largest.clone();
    too_large.push('0');
    assert_eq!(parse_natural(&too_large), None);
    assert_eq!(parse_natural("340282366920938463463374607431768211456"), None);
    assert_eq!(
        failure(Parser::new("340282366920938463463374607431768211456").get_natural()),
        ("expected a natural number".to_string(), 1)
    );
}

#[test]
fn read_natural_stops_at_the_first_other_character() {
    let mut parser = Parser::new("12.5");
    assert_eq!(parser.read_natural(), Some(12));
    assert_eq!(parser.peek(), Some('.'));
    assert_eq!(failure(parser.get_natural()), ("expected a natural number".to_string(), 1));
}

#[test]
fn numerals_are_recognised() {
    for text in ["0", "-1", "+1", "0.1", "1.", ".5", "-.5", "1.2e3", "1.2E3", "1.2e+3", "-1.2e-3", "1e0", "007", "1.e2"] {
        assert!(Real::parse(text.to_string()).is_some(), "{}", text);
    }
    for text in ["", ".", "-", "+", "-.", "e3", ".e3", "1e", "1e+", "1e-", "1.2.3", "1e2e3", "1e2.5", "--1", "1-", "1+2", "1e2+", "e", "1 "] {
        assert!(Real::parse(text.to_string()).is_none(), "{}", text);
    }
}

#[test]
fn numeral_is_kept_as_written() {
    let number = Real::parse("-1.20e+03".to_string()).unwrap();
    assert_eq!(number.as_str(), "-1.20e+03");
    assert_eq!(number.clone(), number);
}

#[test]
fn numeral_denotes_a_decimal() {
    assert_eq!(decimal("-1"), Some(Decimal { negative: true, significand: 1, exponent: 0 }));
    assert_eq!(decimal("0.1"), Some(Decimal { negative: false, significand: 1, exponent: -1 }));
    assert_eq!(decimal("1.2e3"), Some(Decimal { negative: false, significand: 12, exponent: 2 }));
    assert_eq!(decimal("1.2e+3"), Some(Decimal { negative: false, significand: 12, exponent: 2 }));
    assert_eq!(decimal("-1.2e-3"), Some(Decimal { negative: true, significand: 12, exponent: -4 }));
    assert_eq!(decimal("70.07"), Some(Decimal { negative: false, significand: 7007, exponent: -2 }));
    assert_eq!(decimal("+5."), Some(Decimal { negative: false, significand: 5, exponent: 0 }));
    assert_eq!(decimal(".25E1"), Some(Decimal { negative: false, significand: 25, exponent: -1 }));
    assert_eq!(decimal("-0"), Some(Decimal { negative: true, significand: 0, exponent: 0 }));
}

#[test]
fn decimal_has_to_fit() {
    assert_eq!(
        decimal("18446744073709551615"),
        Some(Decimal { negative: false, significand: u64::MAX, exponent: 0 })
    );
    assert_eq!(decimal("18446744073709551616"), None);
    assert_eq!(decimal("1.8446744073709551616"), None);
    assert_eq!(
        decimal("1e9223372036854775807"),
        Some(Decimal { negative: false, significand: 1, exponent: i64::MAX })
    );
    assert_eq!(decimal("1e9223372036854775808"), None);
    assert_eq!(
        decimal("1e-9223372036854775808"),
        Some(Decimal { negative: false, significand: 1, exponent: i64::MIN })
    );
    assert_eq!(decimal("1.0e-9223372036854775808"), None);
    assert_eq!(decimal("1e18446744073709551616"), None);
}

#[test]
fn get_real_rejects_what_is_no_numeral() {
    assert_eq!(failure(Parser::new("abc").get_real()), ("expected a real number".to_string(), 1));
    assert_eq!(failure(Parser::new("1.2.3").get_real()), ("expected a real number".to_string(), 1));
    assert_eq!(failure(Parser::new("-").get_real()), ("expected a real number".to_string(), 1));
    assert_eq!(failure(Parser::new("").get_real()), ("expected a real number".to_string(), 1));
}

#[test]
fn read_real_takes_every_character_of_the_run() {
    let mut parser = Parser::new("1e5e x");
    assert!(parser.read_real().is_none());
    assert_eq!(parser.peek(), Some('x'));
    let mut parser = Parser::new("12 34");
    assert_eq!(parser.read_real().unwrap().as_str(), "12");
    assert_eq!(parser.read_real().unwrap().as_str(), "34");
    assert!(parser.read_real().is_none());
}

#[test]
fn error_renders_message_and_line() {
    assert_eq!(Error::new(1, "expected a token").render(), "expected a token on line 1");
    assert_eq!(Error::new(0, "x").render(), "x on line 0");
    assert_eq!(Error::new(10, "x").render(), "x on line 10");
    assert_eq!(Error::new(1234567890, "").render(), " on line 1234567890");
    assert_eq!(Error::expected(7, "TYPE").render(), "expected `TYPE` on line 7");
    assert_eq!(Error::expected_char(12, '}').render(), "expected `}` on line 12");
    assert_eq!(
        Error::new(usize::MAX, "m").render(),
        format!("m on line {}", usize::MAX)
    );
}
