use lexer::document::Document;
use lexer::source::Source;
use lexer::token::Token;

fn over(input: &str) -> Document {
    Document::new(Source::new(input.as_bytes().to_vec()))
}

fn drain(mut lexer: Document) -> Vec<Token> {
    let mut out = Vec::new();
    while let Some(t) = lexer.next() {
        out.push(t);
    }
    out
}

#[test]
fn structural_with_whitespace_elided() {
    let mut lexer = over(" { [\t] ,\n: }\r");
    assert_eq!(lexer.next(), Some(Token::ObjectStart));
    assert_eq!(lexer.next(), Some(Token::ArrayStart));
    assert_eq!(lexer.next(), Some(Token::ArrayEnd));
    assert_eq!(lexer.next(), Some(Token::Comma));
    assert_eq!(lexer.next(), Some(Token::Colon));
    assert_eq!(lexer.next(), Some(Token::ObjectEnd));
    assert_eq!(lexer.next(), None);
}

#[test]
fn string_escapes_preserved() {
    // `"a\"b"`: backslash and escaped quote both retained, undecoded.
    let mut lexer = over("\"a\\\"b\"");
    assert_eq!(lexer.next(), Some(Token::String("a\\\"b".as_bytes().to_vec())));
    assert_eq!(lexer.next(), None);
}

#[test]
fn even_backslash_run_terminates() {
    // `"a\\"`: the two backslashes escape each other, the quote closes.
    let mut lexer = over("\"a\\\\\"");
    assert_eq!(lexer.next(), Some(Token::String("a\\\\".as_bytes().to_vec())));
    assert_eq!(lexer.next(), None);
}

#[test]
fn odd_backslash_run_escapes() {
    // `"a\"` and end-of-input: the quote is escaped, the string never
    // closes, and the partial body keeps every byte after the opener.
    let mut lexer = over("\"a\\\"");
    assert_eq!(
        lexer.next(),
        Some(Token::InvalidJSON("a\\\"".as_bytes().to_vec()))
    );
    assert_eq!(lexer.next(), None);
}

#[test]
fn unterminated_string_keeps_partial() {
    let mut lexer = over("\"abc");
    assert_eq!(lexer.next(), Some(Token::InvalidJSON("abc".as_bytes().to_vec())));
    assert_eq!(lexer.next(), None);
}

#[test]
fn literals_at_end_of_input() {
    assert_eq!(drain(over("true")), vec![Token::Bool(true)]);
    assert_eq!(drain(over("false")), vec![Token::Bool(false)]);
    assert_eq!(drain(over("null")), vec![Token::Null]);
}

#[test]
fn literal_replays_buffered_terminator() {
    let mut lexer = over("true}");
    assert_eq!(lexer.next(), Some(Token::Bool(true)));
    assert_eq!(lexer.next(), Some(Token::ObjectEnd));
    assert_eq!(lexer.next(), None);
}

#[test]
fn literal_before_object_start() {
    let mut lexer = over("true{");
    assert_eq!(lexer.next(), Some(Token::Bool(true)));
    assert_eq!(lexer.next(), Some(Token::ObjectStart));
    assert_eq!(lexer.next(), None);
}

#[test]
fn null_replays_comma() {
    let mut lexer = over("null,");
    assert_eq!(lexer.next(), Some(Token::Null));
    assert_eq!(lexer.next(), Some(Token::Comma));
    assert_eq!(lexer.next(), None);
}

#[test]
fn number_keeps_full_span_before_comma() {
    let mut lexer = over("-1.5e+3,");
    assert_eq!(
        lexer.next(),
        Some(Token::Number("-1.5e+3".as_bytes().to_vec()))
    );
    assert_eq!(lexer.next(), Some(Token::Comma));
    assert_eq!(lexer.next(), None);
}

#[test]
fn numbers_split_by_whitespace() {
    let mut lexer = over("1 2");
    assert_eq!(lexer.next(), Some(Token::Number("1".as_bytes().to_vec())));
    assert_eq!(lexer.next(), Some(Token::Number("2".as_bytes().to_vec())));
    assert_eq!(lexer.next(), None);
}

#[test]
fn number_stops_at_foreign_byte() {
    // A byte outside the number alphabet and outside the terminator
    // set ends the span and is consumed and discarded.
    let mut lexer = over("1x2");
    assert_eq!(lexer.next(), Some(Token::Number("1".as_bytes().to_vec())));
    assert_eq!(lexer.next(), Some(Token::Number("2".as_bytes().to_vec())));
    assert_eq!(lexer.next(), None);
}

#[test]
fn keyword_mismatch_keeps_consumed_bytes() {
    let mut lexer = over("trx");
    assert_eq!(lexer.next(), Some(Token::InvalidJSON("trx".as_bytes().to_vec())));
    assert_eq!(lexer.next(), None);
}

#[test]
fn keyword_cut_by_end_of_input() {
    let mut lexer = over("tr");
    assert_eq!(lexer.next(), Some(Token::InvalidJSON("tr".as_bytes().to_vec())));
    assert_eq!(lexer.next(), None);
}

#[test]
fn null_mismatch_keeps_leading_byte() {
    let mut lexer = over("nux");
    assert_eq!(lexer.next(), Some(Token::InvalidJSON("nux".as_bytes().to_vec())));
    assert_eq!(lexer.next(), None);
}

#[test]
fn keyword_with_bad_terminator() {
    let mut lexer = over("truex");
    assert_eq!(
        lexer.next(),
        Some(Token::InvalidJSON("true".as_bytes().to_vec()))
    );
    assert_eq!(lexer.next(), None);
}

#[test]
fn unrecognized_byte_is_discarded() {
    let mut lexer = over("@");
    assert_eq!(lexer.next(), Some(Token::InvalidJSON(Vec::new())));
    assert_eq!(lexer.next(), None);
}

#[test]
fn rescan_reproduces_sequence() {
    let input = "{ \"k\": [true, -1.5e+3, null], \"x\" }";
    let first = drain(over(input));
    let second = drain(over(input));
    assert_eq!(first, second);
    assert!(!first.is_empty());
}

#[test]
fn read_failure_is_reported_once() {
    let source = Source::with_failure(Vec::new(), 0, String::from("boom"));
    let mut lexer = Document::new(source);
    assert_eq!(lexer.next(), Some(Token::IOError(String::from("boom"))));
    assert_eq!(lexer.next(), None);
    assert_eq!(lexer.next(), None);
}

#[test]
fn read_failure_mid_number_discards_span() {
    let source = Source::with_failure("12".as_bytes().to_vec(), 2, String::from("gone"));
    let mut lexer = Document::new(source);
    assert_eq!(lexer.next(), Some(Token::IOError(String::from("gone"))));
    assert_eq!(lexer.next(), None);
}

#[test]
fn read_failure_mid_string_discards_partial() {
    let source = Source::with_failure("\"ab".as_bytes().to_vec(), 3, String::from("lost"));
    let mut lexer = Document::new(source);
    assert_eq!(lexer.next(), Some(Token::IOError(String::from("lost"))));
    assert_eq!(lexer.next(), None);
}

#[test]
fn tokens_before_failure_still_come() {
    let source = Source::with_failure("{}".as_bytes().to_vec(), 2, String::from("late"));
    let mut lexer = Document::new(source);
    assert_eq!(lexer.next(), Some(Token::ObjectStart));
    assert_eq!(lexer.next(), Some(Token::ObjectEnd));
    assert_eq!(lexer.next(), Some(Token::IOError(String::from("late"))));
    assert_eq!(lexer.next(), None);
}

#[test]
fn tokens_drains_everything() {
    let mut lexer = over("{ \"k\": 1 }");
    let toks = lexer.tokens();
    assert_eq!(
        toks,
        vec![
            Token::ObjectStart,
            Token::String("k".as_bytes().to_vec()),
            Token::Colon,
            Token::Number("1".as_bytes().to_vec()),
            Token::ObjectEnd,
        ]
    );
    assert_eq!(lexer.next(), None);
}

#[test]
fn empty_input_yields_nothing() {
    let mut lexer = over("");
    assert_eq!(lexer.next(), None);
    assert_eq!(lexer.next(), None);
}

#[test]
fn whitespace_only_input_ends_cleanly() {
    let mut lexer = over(" \t\r\n ");
    assert_eq!(lexer.next(), None);
}
