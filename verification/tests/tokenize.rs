use lox_lexer::scanner::{Error, LexicalKind};
use lox_lexer::{Token, Tokenizer};

#[test]
fn out() {
    let input = ",.$(#";

    let mut tokenizer = Tokenizer::new(input);
    tokenizer.tokenize();

    let expected: Vec<String> = [Token::comma(), Token::dot(), Token::left_paren(), Token::eof()]
        .iter()
        .map(|token| token.render())
        .collect();
    assert_eq!(tokenizer.out, expected);
}

#[test]
fn err() {
    let input = "\
        $\n\
        #\n\
        ";

    let mut tokenizer = Tokenizer::new(input);
    tokenizer.tokenize();

    let expected: Vec<String> = [
        Error::lexical(1, LexicalKind::UnexpectedCharacter('$')),
        Error::lexical(2, LexicalKind::UnexpectedCharacter('#')),
    ]
    .iter()
    .map(|error| error.render())
    .collect();
    assert_eq!(tokenizer.err, expected);
}

#[test]
fn out_err() {
    let input = "\
        ,\n\
        .\n\
        $\n\
        (\n\
        #\n\
        ";

    let mut tokenizer = Tokenizer::new(input);
    tokenizer.tokenize();

    {
        let expected_out: Vec<String> =
            [Token::comma(), Token::dot(), Token::left_paren(), Token::eof()]
                .iter()
                .map(|token| token.render())
                .collect();
        assert_eq!(tokenizer.out, expected_out);
    }

    {
        let expected_err: Vec<String> = [
            Error::lexical(3, LexicalKind::UnexpectedCharacter('$')),
            Error::lexical(5, LexicalKind::UnexpectedCharacter('#')),
        ]
        .iter()
        .map(|error| error.render())
        .collect();
        assert_eq!(tokenizer.err, expected_err);
    }
}
