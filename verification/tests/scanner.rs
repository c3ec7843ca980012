use lox_lexer::scanner::{Error, LexicalKind};
use lox_lexer::token::{Literal, Type};
use lox_lexer::{Scanner, Token};

#[test]
fn punctuators() {
    let input = "(){};,+-*!!====<=>=!=<>/.";
    let mut scanner = Scanner::new(input);
    let mut next_token = || scanner.next().unwrap().unwrap();
    assert_eq!(next_token(), Token::left_paren());
    assert_eq!(next_token(), Token::right_paren());
    assert_eq!(next_token(), Token::left_brace());
    assert_eq!(next_token(), Token::right_brace());
    assert_eq!(next_token(), Token::semicolon());
    assert_eq!(next_token(), Token::comma());
    assert_eq!(next_token(), Token::plus());
    assert_eq!(next_token(), Token::minus());
    assert_eq!(next_token(), Token::star());
    assert_eq!(next_token(), Token::bang());
    assert_eq!(next_token(), Token::bang_equal());
    assert_eq!(next_token(), Token::equal_equal());
    assert_eq!(next_token(), Token::equal());
    assert_eq!(next_token(), Token::less_equal());
    assert_eq!(next_token(), Token::greater_equal());
    assert_eq!(next_token(), Token::bang_equal());
    assert_eq!(next_token(), Token::less());
    assert_eq!(next_token(), Token::greater());
    assert_eq!(next_token(), Token::slash());
    assert_eq!(next_token(), Token::dot());
    assert_eq!(next_token(), Token::eof());
    assert!(scanner.next().is_none());
}

#[test]
fn comment() {
    let input = "\
        // comment (){};,+-*!!====<=>=!=<>/.\n\
        ()\n\
        // comment\n\
        // comment\n\
        *";
    let mut scanner = Scanner::new(input);
    let mut next_token = || scanner.next().unwrap().unwrap();
    assert_eq!(next_token(), Token::left_paren());
    assert_eq!(next_token(), Token::right_paren());
    assert_eq!(next_token(), Token::star());
    assert_eq!(next_token(), Token::eof());
    assert!(scanner.next().is_none());
}

#[test]
fn unterminated() {
    let input = "\
        *\n\
        // comment\n\
        \"*string*\"\n\
        \"unterminated\n\
        ***\n\
        ";
    let mut scanner = Scanner::new(input);
    let mut next_token = || scanner.next().unwrap();
    assert_eq!(next_token().unwrap(), Token::star());
    assert_eq!(
        next_token().unwrap(),
        Token::new(Type::String, "\"*string*\"", Literal::Str("*string*"))
    );
    assert_eq!(
        next_token(),
        Err(Error::lexical(4, LexicalKind::UnterminatedString))
    );
    assert_eq!(next_token().unwrap(), Token::eof());
    assert!(scanner.next().is_none());
}

#[test]
fn multi_line() {
    let multi_line = "\
        \"\n\
            multi\n\
            line\n\
            string\n\
        \"";

    let input = format!(
        "{multi_line}
        $\n\
        *"
    );

    let mut scanner = Scanner::new(&input);
    let mut next_token = || scanner.next().unwrap();
    assert_eq!(
        next_token().unwrap(),
        Token::new(
            Type::String,
            multi_line,
            Literal::Str(&multi_line[1..multi_line.len() - 1])
        )
    );

    assert_eq!(
        next_token(),
        Err(Error::lexical(6, LexicalKind::UnexpectedCharacter('$')))
    );
    assert_eq!(next_token().unwrap(), Token::star());
    assert_eq!(next_token().unwrap(), Token::eof());
    assert!(scanner.next().is_none());
}

#[test]
fn num() {
    let input = "\
        1234.1234.1234.\n\
        ";

    let mut scanner = Scanner::new(input);
    let mut next_token = || scanner.next().unwrap().unwrap();

    assert_eq!(
        next_token(),
        Token::new(Type::Number, "1234.1234", Literal::Num("1234.1234".to_string()))
    );
    assert_eq!(next_token(), Token::dot());
    assert_eq!(
        next_token(),
        Token::new(Type::Number, "1234", Literal::Num("1234.0".to_string()))
    );
    assert_eq!(next_token(), Token::dot());
    assert_eq!(next_token(), Token::eof());
}
