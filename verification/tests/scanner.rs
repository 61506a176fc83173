use lexer::document::Document;
use lexer::source::Source;
use lexer::token::Token;

fn over(input: &str) -> Document {
    Document::new(Source::new(input.as_bytes().to_vec()))
}

#[test]
fn it_works() {
    let mut lexer = over("{}");
    assert_eq!(lexer.next(), Some(Token::ObjectStart));
    assert_eq!(lexer.next(), Some(Token::ObjectEnd));
    assert_eq!(lexer.next(), None);
}

#[test]
fn it_works_string() {
    let mut lexer = over("\"test\"");
    assert_eq!(lexer.next(), Some(Token::String("test".as_bytes().to_vec())));
    assert_eq!(lexer.next(), None);

    let mut lexer = over("\"test");
    assert_eq!(
        lexer.next(),
        Some(Token::InvalidJSON("test".as_bytes().to_vec()))
    );
    assert_eq!(lexer.next(), None);

    let mut lexer = over("\"test\\\"blah\\\"\"");
    assert_eq!(
        lexer.next(),
        Some(Token::String("test\\\"blah\\\"".as_bytes().to_vec()))
    );
}

#[test]
fn it_works_bool() {
    let mut lexer = over("true");
    assert_eq!(lexer.next(), Some(Token::Bool(true)));
    assert_eq!(lexer.next(), None);

    let mut lexer = over("false");
    assert_eq!(lexer.next(), Some(Token::Bool(false)));
    assert_eq!(lexer.next(), None);
}

#[test]
fn it_works_null() {
    let mut lexer = over("null");
    assert_eq!(lexer.next(), Some(Token::Null));
    assert_eq!(lexer.next(), None);
}

#[test]
fn it_works_number() {
    let mut lexer = over("1");
    assert_eq!(lexer.next(), Some(Token::Number("1".as_bytes().to_vec())));
    assert_eq!(lexer.next(), None);

    let mut lexer = over("1.23");
    assert_eq!(lexer.next(), Some(Token::Number("1.23".as_bytes().to_vec())));
    assert_eq!(lexer.next(), None);

    let mut lexer = over("-1.23");
    assert_eq!(
        lexer.next(),
        Some(Token::Number("-1.23".as_bytes().to_vec()))
    );
    assert_eq!(lexer.next(), None);

    let mut lexer = over("1.0E+2");
    assert_eq!(
        lexer.next(),
        Some(Token::Number("1.0E+2".as_bytes().to_vec()))
    );
    assert_eq!(lexer.next(), None);
}

#[test]
fn it_works_whitespace() {
    let mut lexer = over("   1");
    assert_eq!(lexer.next(), Some(Token::Number("1".as_bytes().to_vec())));
    assert_eq!(lexer.next(), None);

    let mut lexer = over("\"   test\"");
    assert_eq!(
        lexer.next(),
        Some(Token::String("   test".as_bytes().to_vec()))
    );
    assert_eq!(lexer.next(), None);
}

#[test]
fn it_works_comma_colon_whitespace() {
    let mut lexer = over("{ \"key\":\"value\", \"key2\":\"value2\" }");
    assert_eq!(lexer.next(), Some(Token::ObjectStart));
    assert_eq!(lexer.next(), Some(Token::String("key".as_bytes().to_vec())));
    assert_eq!(lexer.next(), Some(Token::Colon));
    assert_eq!(
        lexer.next(),
        Some(Token::String("value".as_bytes().to_vec()))
    );
    assert_eq!(lexer.next(), Some(Token::Comma));
    assert_eq!(lexer.next(), Some(Token::String("key2".as_bytes().to_vec())));
    assert_eq!(lexer.next(), Some(Token::Colon));
    assert_eq!(
        lexer.next(),
        Some(Token::String("value2".as_bytes().to_vec()))
    );
    assert_eq!(lexer.next(), Some(Token::ObjectEnd));
    assert_eq!(lexer.next(), None);
}

#[test]
fn it_works_small3() {
    let input = r#"
        {
            "key1": "value1",
            "key2": "value2",
            "key3": "value3"
        }
        "#;
    let mut lexer = over(input);
    assert_eq!(lexer.next(), Some(Token::ObjectStart));
    assert_eq!(lexer.next(), Some(Token::String("key1".as_bytes().to_vec())));
    assert_eq!(lexer.next(), Some(Token::Colon));
    assert_eq!(
        lexer.next(),
        Some(Token::String("value1".as_bytes().to_vec()))
    );
    assert_eq!(lexer.next(), Some(Token::Comma));
    assert_eq!(lexer.next(), Some(Token::String("key2".as_bytes().to_vec())));
    assert_eq!(lexer.next(), Some(Token::Colon));
    assert_eq!(
        lexer.next(),
        Some(Token::String("value2".as_bytes().to_vec()))
    );
    assert_eq!(lexer.next(), Some(Token::Comma));
    assert_eq!(lexer.next(), Some(Token::String("key3".as_bytes().to_vec())));
    assert_eq!(lexer.next(), Some(Token::Colon));
    assert_eq!(
        lexer.next(),
        Some(Token::String("value3".as_bytes().to_vec()))
    );
    assert_eq!(lexer.next(), Some(Token::ObjectEnd));
    assert_eq!(lexer.next(), None);
}
