use lox_lexer::token::Type;
use lox_lexer::{Scanner, Token, Tokenizer};

#[test]
fn keywords_scan_as_keywords() {
    let input = "and class else false for fun if nil or print return super this true var while";
    let expected = [
        (Type::And, "and"),
        (Type::Class, "class"),
        (Type::Else, "else"),
        (Type::False, "false"),
        (Type::For, "for"),
        (Type::Fun, "fun"),
        (Type::If, "if"),
        (Type::Nil, "nil"),
        (Type::Or, "or"),
        (Type::Print, "print"),
        (Type::Return, "return"),
        (Type::Super, "super"),
        (Type::This, "this"),
        (Type::True, "true"),
        (Type::Var, "var"),
        (Type::While, "while"),
    ];
    let mut scanner = Scanner::new(input);
    for (ty, word) in expected {
        assert_eq!(scanner.next().unwrap().unwrap(), Token::new_null(ty, word));
    }
    assert_eq!(scanner.next().unwrap().unwrap(), Token::eof());
    assert!(scanner.next().is_none());
}

#[test]
fn keyword_inside_longer_identifier_is_identifier() {
    // every reserved word as a strict prefix of a longer identifier
    let words = [
        "andy", "classes", "elsewhere", "falsey", "forest", "fungus", "iffy", "nils", "ore",
        "printer", "returns", "superb", "thistle", "truest", "vars", "whiley",
    ];
    for word in words {
        let mut scanner = Scanner::new(word);
        assert_eq!(
            scanner.next().unwrap().unwrap(),
            Token::new_null(Type::Identifier, word)
        );
        assert_eq!(scanner.next().unwrap().unwrap(), Token::eof());
    }
}

#[test]
fn reserved_lookup_is_whole_word() {
    assert_eq!(Token::reserved("for"), Some(Token::new_null(Type::For, "for")));
    assert_eq!(Token::reserved("forest"), None);
    assert_eq!(Token::reserved("FOR"), None);
    assert_eq!(Token::reserved(""), None);
}

#[test]
fn comment_discards_illegal_characters() {
    let input = "// $#@\n*";
    let mut scanner = Scanner::new(input);
    assert_eq!(scanner.next().unwrap().unwrap(), Token::star());
    assert_eq!(scanner.next().unwrap().unwrap(), Token::eof());
    assert!(scanner.next().is_none());
}

#[test]
fn maximal_munch_bang_equal() {
    let input = "!=";
    let mut scanner = Scanner::new(input);
    assert_eq!(scanner.next().unwrap().unwrap(), Token::bang_equal());
    assert_eq!(scanner.next().unwrap().unwrap(), Token::eof());
    assert!(scanner.next().is_none());
}

#[test]
fn scanning_twice_is_identical() {
    let input = "var x = 1;\n\"two\nlines\" // note\n@ 3.50";
    let mut first = Tokenizer::new(input);
    first.tokenize();
    let mut second = Tokenizer::new(input);
    second.tokenize();
    assert_eq!(first.out, second.out);
    assert_eq!(first.err, second.err);
    assert_eq!(first.code, second.code);
}

#[test]
fn end_to_end_channels_and_status() {
    let input = ",.$(#";
    let mut tokenizer = Tokenizer::new(input);
    tokenizer.tokenize();
    assert_eq!(
        tokenizer.out,
        vec![
            "COMMA , null".to_string(),
            "DOT . null".to_string(),
            "LEFT_PAREN ( null".to_string(),
            "EOF  null".to_string(),
        ]
    );
    assert_eq!(
        tokenizer.err,
        vec![
            "[line 1] Error: Unexpected character: $".to_string(),
            "[line 1] Error: Unexpected character: #".to_string(),
        ]
    );
    assert_eq!(tokenizer.code, 65);
}

#[test]
fn status_stays_zero_without_errors() {
    let input = "(){}";
    let mut tokenizer = Tokenizer::new(input);
    tokenizer.tokenize();
    assert!(tokenizer.err.is_empty());
    assert_eq!(tokenizer.code, 0);
}

#[test]
fn empty_input_yields_only_eof() {
    let mut scanner = Scanner::new("");
    assert_eq!(scanner.next().unwrap().unwrap(), Token::eof());
    assert!(scanner.next().is_none());

    let mut tokenizer = Tokenizer::new("");
    tokenizer.tokenize();
    assert_eq!(tokenizer.out, vec!["EOF  null".to_string()]);
    assert!(tokenizer.err.is_empty());
    assert_eq!(tokenizer.code, 0);
}

#[test]
fn number_literals_render_with_fractional_part() {
    let cases = [
        ("1234", "NUMBER 1234 1234.0"),
        ("007", "NUMBER 007 7.0"),
        ("1.50", "NUMBER 1.50 1.5"),
        ("0.5", "NUMBER 0.5 0.5"),
        ("1.000", "NUMBER 1.000 1.0"),
        ("42.42", "NUMBER 42.42 42.42"),
    ];
    for (input, line) in cases {
        let mut tokenizer = Tokenizer::new(input);
        tokenizer.tokenize();
        assert_eq!(tokenizer.out, vec![line.to_string(), "EOF  null".to_string()]);
        assert!(tokenizer.err.is_empty());
    }
}

#[test]
fn string_literal_renders_without_quotes() {
    let input = "\"hi\"";
    let mut tokenizer = Tokenizer::new(input);
    tokenizer.tokenize();
    assert_eq!(
        tokenizer.out,
        vec!["STRING \"hi\" hi".to_string(), "EOF  null".to_string()]
    );
}

#[test]
fn unexpected_characters_each_yield_their_own_error() {
    let input = "$$";
    let mut scanner = Scanner::new(input);
    assert!(scanner.next().unwrap().is_err());
    assert!(scanner.next().unwrap().is_err());
    assert_eq!(scanner.next().unwrap().unwrap(), Token::eof());
    assert!(scanner.next().is_none());
}

#[test]
fn identifiers_may_hold_underscores_and_digits() {
    let input = "_foo1 bar_2";
    let mut scanner = Scanner::new(input);
    assert_eq!(
        scanner.next().unwrap().unwrap(),
        Token::new_null(Type::Identifier, "_foo1")
    );
    assert_eq!(
        scanner.next().unwrap().unwrap(),
        Token::new_null(Type::Identifier, "bar_2")
    );
    assert_eq!(scanner.next().unwrap().unwrap(), Token::eof());
}

#[test]
fn category_names_render_upper_snake_case() {
    assert_eq!(Type::LeftParen.name(), "LEFT_PAREN");
    assert_eq!(Type::BangEqual.name(), "BANG_EQUAL");
    assert_eq!(Type::Identifier.name(), "IDENTIFIER");
    assert_eq!(Type::Eof.name(), "EOF");
}
