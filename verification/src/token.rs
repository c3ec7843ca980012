//! The token model: a token's category, its exact source text (lexeme), and
//! an optional decoded literal value.

use vstd::prelude::*;

use crate::text::str_eq;

verus! {

/// The category of a lexical token.
#[derive(Debug, PartialEq, Eq, Structural, Clone, Copy)]
pub enum Type {
    LeftParen,
    RightParen,
    LeftBrace,
    RightBrace,
    Semicolon,
    Comma,
    Plus,
    Minus,
    Star,
    Bang,
    Equal,
    Less,
    Greater,
    Slash,
    Dot,
    BangEqual,
    EqualEqual,
    LessEqual,
    GreaterEqual,
    Identifier,
    String,
    Number,
    And,
    Class,
    Else,
    False,
    Fun,
    For,
    If,
    Nil,
    Or,
    Print,
    Return,
    Super,
    This,
    True,
    Var,
    While,
    Eof,
}

/// The upper-snake-case name of a category, as it stands first on a token's
/// rendered line.
pub open spec fn spec_type_name(t: Type) -> Seq<char> {
    match t {
        Type::LeftParen => "LEFT_PAREN"@,
        Type::RightParen => "RIGHT_PAREN"@,
        Type::LeftBrace => "LEFT_BRACE"@,
        Type::RightBrace => "RIGHT_BRACE"@,
        Type::Semicolon => "SEMICOLON"@,
        Type::Comma => "COMMA"@,
        Type::Plus => "PLUS"@,
        Type::Minus => "MINUS"@,
        Type::Star => "STAR"@,
        Type::Bang => "BANG"@,
        Type::Equal => "EQUAL"@,
        Type::Less => "LESS"@,
        Type::Greater => "GREATER"@,
        Type::Slash => "SLASH"@,
        Type::Dot => "DOT"@,
        Type::BangEqual => "BANG_EQUAL"@,
        Type::EqualEqual => "EQUAL_EQUAL"@,
        Type::LessEqual => "LESS_EQUAL"@,
        Type::GreaterEqual => "GREATER_EQUAL"@,
        Type::Identifier => "IDENTIFIER"@,
        Type::String => "STRING"@,
        Type::Number => "NUMBER"@,
        Type::And => "AND"@,
        Type::Class => "CLASS"@,
        Type::Else => "ELSE"@,
        Type::False => "FALSE"@,
        Type::Fun => "FUN"@,
        Type::For => "FOR"@,
        Type::If => "IF"@,
        Type::Nil => "NIL"@,
        Type::Or => "OR"@,
        Type::Print => "PRINT"@,
        Type::Return => "RETURN"@,
        Type::Super => "SUPER"@,
        Type::This => "THIS"@,
        Type::True => "TRUE"@,
        Type::Var => "VAR"@,
        Type::While => "WHILE"@,
        Type::Eof => "EOF"@,
    }
}

impl Type {
    /// The category's upper-snake-case name, used by the textual rendering.
    pub fn name(&self) -> (s: String)
        ensures
            s@ == spec_type_name(*self),
    {
        match self {
            Type::LeftParen => String::from_str("LEFT_PAREN"),
            Type::RightParen => String::from_str("RIGHT_PAREN"),
            Type::LeftBrace => String::from_str("LEFT_BRACE"),
            Type::RightBrace => String::from_str("RIGHT_BRACE"),
            Type::Semicolon => String::from_str("SEMICOLON"),
            Type::Comma => String::from_str("COMMA"),
            Type::Plus => String::from_str("PLUS"),
            Type::Minus => String::from_str("MINUS"),
            Type::Star => String::from_str("STAR"),
            Type::Bang => String::from_str("BANG"),
            Type::Equal => String::from_str("EQUAL"),
            Type::Less => String::from_str("LESS"),
            Type::Greater => String::from_str("GREATER"),
            Type::Slash => String::from_str("SLASH"),
            Type::Dot => String::from_str("DOT"),
            Type::BangEqual => String::from_str("BANG_EQUAL"),
            Type::EqualEqual => String::from_str("EQUAL_EQUAL"),
            Type::LessEqual => String::from_str("LESS_EQUAL"),
            Type::GreaterEqual => String::from_str("GREATER_EQUAL"),
            Type::Identifier => String::from_str("IDENTIFIER"),
            Type::String => String::from_str("STRING"),
            Type::Number => String::from_str("NUMBER"),
            Type::And => String::from_str("AND"),
            Type::Class => String::from_str("CLASS"),
            Type::Else => String::from_str("ELSE"),
            Type::False => String::from_str("FALSE"),
            Type::Fun => String::from_str("FUN"),
            Type::For => String::from_str("FOR"),
            Type::If => String::from_str("IF"),
            Type::Nil => String::from_str("NIL"),
            Type::Or => String::from_str("OR"),
            Type::Print => String::from_str("PRINT"),
            Type::Return => String::from_str("RETURN"),
            Type::Super => String::from_str("SUPER"),
            Type::This => String::from_str("THIS"),
            Type::True => String::from_str("TRUE"),
            Type::Var => String::from_str("VAR"),
            Type::While => String::from_str("WHILE"),
            Type::Eof => String::from_str("EOF"),
        }
    }
}

/// The reserved keyword named by `w`, if any: the lookup is exact,
/// case-sensitive and whole-word.
pub open spec fn spec_keyword(w: Seq<char>) -> Option<Type> {
    if w == "and"@ {
        Some(Type::And)
    } else if w == "class"@ {
        Some(Type::Class)
    } else if w == "else"@ {
        Some(Type::Else)
    } else if w == "false"@ {
        Some(Type::False)
    } else if w == "fun"@ {
        Some(Type::Fun)
    } else if w == "for"@ {
        Some(Type::For)
    } else if w == "if"@ {
        Some(Type::If)
    } else if w == "nil"@ {
        Some(Type::Nil)
    } else if w == "or"@ {
        Some(Type::Or)
    } else if w == "print"@ {
        Some(Type::Print)
    } else if w == "return"@ {
        Some(Type::Return)
    } else if w == "super"@ {
        Some(Type::Super)
    } else if w == "this"@ {
        Some(Type::This)
    } else if w == "true"@ {
        Some(Type::True)
    } else if w == "var"@ {
        Some(Type::Var)
    } else if w == "while"@ {
        Some(Type::While)
    } else {
        None
    }
}

/// The decoded value of a literal token, at the specification level.
pub ghost enum LiteralView {
    Null,
    Str(Seq<char>),
    Num(Seq<char>),
}

/// The decoded value carried by a token: nothing for punctuators, operators
/// and keywords; the text between the quotes for a string literal; the
/// canonical decimal form for a numeric literal.
#[derive(Debug, PartialEq, Clone)]
pub enum Literal<'a> {
    Null,
    Str(&'a str),
    Num(String),
}

impl View for Literal<'_> {
    type V = LiteralView;

    open spec fn view(&self) -> LiteralView {
        match self {
            Literal::Null => LiteralView::Null,
            Literal::Str(s) => LiteralView::Str(s@),
            Literal::Num(d) => LiteralView::Num(d@),
        }
    }
}

/// A token, at the specification level: its category, the exact source text
/// that produced it, and its decoded literal value.
pub ghost struct TokenView {
    pub ty: Type,
    pub lexeme: Seq<char>,
    pub literal: LiteralView,
}

/// A literal-free token.
pub open spec fn null_token(ty: Type, lexeme: Seq<char>) -> TokenView {
    TokenView { ty, lexeme, literal: LiteralView::Null }
}

/// One lexical unit of the source text. A token borrows its lexeme from the
/// source buffer and is never mutated after creation.
#[derive(Debug, PartialEq, Clone)]
pub struct Token<'a> {
    ty: Type,
    lexeme: &'a str,
    literal: Literal<'a>,
}

impl View for Token<'_> {
    type V = TokenView;

    closed spec fn view(&self) -> TokenView {
        TokenView { ty: self.ty, lexeme: self.lexeme@, literal: self.literal@ }
    }
}

/// How a literal value stands on a token's rendered line: `null` when there
/// is none, else the decoded text.
pub open spec fn spec_literal_render(l: LiteralView) -> Seq<char> {
    match l {
        LiteralView::Null => "null"@,
        LiteralView::Str(s) => s,
        LiteralView::Num(d) => d,
    }
}

/// A token's textual rendering: category name, lexeme and literal, separated
/// by single spaces.
pub open spec fn spec_token_render(t: TokenView) -> Seq<char> {
    spec_type_name(t.ty) + " "@ + t.lexeme + " "@ + spec_literal_render(t.literal)
}

impl<'a> Literal<'a> {
    /// The literal as it stands on a rendered token line.
    pub fn render(&self) -> (s: String)
        ensures
            s@ == spec_literal_render(self@),
    {
        match self {
            Literal::Null => String::from_str("null"),
            Literal::Str(x) => String::from_str(x),
            Literal::Num(d) => d.clone(),
        }
    }
}

impl<'a> Token<'a> {
    /// A token with a literal value.
    pub fn new(ty: Type, lexeme: &'a str, literal: Literal<'a>) -> (t: Token<'a>)
        ensures
            t@ == (TokenView { ty, lexeme: lexeme@, literal: literal@ }),
    {
        Token { ty, lexeme, literal }
    }

    /// A literal-free token.
    pub fn new_null(ty: Type, lexeme: &'a str) -> (t: Token<'a>)
        ensures
            t@ == null_token(ty, lexeme@),
    {
        Token { ty, lexeme, literal: Literal::Null }
    }

    /// The token's category.
    pub fn ty(&self) -> (t: Type)
        ensures
            t == self@.ty,
    {
        self.ty
    }

    /// The exact source text that produced the token.
    pub fn lexeme(&self) -> (s: &'a str)
        ensures
            s@ == self@.lexeme,
    {
        self.lexeme
    }

    /// The decoded literal value.
    pub fn literal(&self) -> (l: &Literal<'a>)
        ensures
            l@ == self@.literal,
    {
        &self.literal
    }

    /// The fixed keyword token for a reserved word, `None` for any other
    /// text. The lookup is exact, case-sensitive and whole-word.
    pub fn reserved(word: &'a str) -> (t: Option<Token<'a>>)
        ensures
            match spec_keyword(word@) {
                Some(k) => t is Some && t->0@ == null_token(k, word@),
                None => t is None,
            },
    {
        match Self::reserved_type(word) {
            Some(k) => Some(Token::new_null(k, word)),
            None => None,
        }
    }

    /// The category of a reserved word, `None` for any other text.
    pub fn reserved_type(word: &str) -> (t: Option<Type>)
        ensures
            t == spec_keyword(word@),
    {
        if str_eq(word, "and") {
            Some(Type::And)
        } else if str_eq(word, "class") {
            Some(Type::Class)
        } else if str_eq(word, "else") {
            Some(Type::Else)
        } else if str_eq(word, "false") {
            Some(Type::False)
        } else if str_eq(word, "fun") {
            Some(Type::Fun)
        } else if str_eq(word, "for") {
            Some(Type::For)
        } else if str_eq(word, "if") {
            Some(Type::If)
        } else if str_eq(word, "nil") {
            Some(Type::Nil)
        } else if str_eq(word, "or") {
            Some(Type::Or)
        } else if str_eq(word, "print") {
            Some(Type::Print)
        } else if str_eq(word, "return") {
            Some(Type::Return)
        } else if str_eq(word, "super") {
            Some(Type::Super)
        } else if str_eq(word, "this") {
            Some(Type::This)
        } else if str_eq(word, "true") {
            Some(Type::True)
        } else if str_eq(word, "var") {
            Some(Type::Var)
        } else if str_eq(word, "while") {
            Some(Type::While)
        } else {
            None
        }
    }

    /// The fixed `(` token.
    pub fn left_paren() -> (t: Token<'a>)
        ensures
            t@ == null_token(Type::LeftParen, "("@),
    {
        Token::new_null(Type::LeftParen, "(")
    }

    /// The fixed `)` token.
    pub fn right_paren() -> (t: Token<'a>)
        ensures
            t@ == null_token(Type::RightParen, ")"@),
    {
        Token::new_null(Type::RightParen, ")")
    }

    /// The fixed `{` token.
    pub fn left_brace() -> (t: Token<'a>)
        ensures
            t@ == null_token(Type::LeftBrace, "{"@),
    {
        Token::new_null(Type::LeftBrace, "{")
    }

    /// The fixed `}` token.
    pub fn right_brace() -> (t: Token<'a>)
        ensures
            t@ == null_token(Type::RightBrace, "}"@),
    {
        Token::new_null(Type::RightBrace, "}")
    }

    /// The fixed `;` token.
    pub fn semicolon() -> (t: Token<'a>)
        ensures
            t@ == null_token(Type::Semicolon, ";"@),
    {
        Token::new_null(Type::Semicolon, ";")
    }

    /// The fixed `,` token.
    pub fn comma() -> (t: Token<'a>)
        ensures
            t@ == null_token(Type::Comma, ","@),
    {
        Token::new_null(Type::Comma, ",")
    }

    /// The fixed `+` token.
    pub fn plus() -> (t: Token<'a>)
        ensures
            t@ == null_token(Type::Plus, "+"@),
    {
        Token::new_null(Type::Plus, "+")
    }

    /// The fixed `-` token.
    pub fn minus() -> (t: Token<'a>)
        ensures
            t@ == null_token(Type::Minus, "-"@),
    {
        Token::new_null(Type::Minus, "-")
    }

    /// The fixed `*` token.
    pub fn star() -> (t: Token<'a>)
        ensures
            t@ == null_token(Type::Star, "*"@),
    {
        Token::new_null(Type::Star, "*")
    }

    /// The fixed `!` token.
    pub fn bang() -> (t: Token<'a>)
        ensures
            t@ == null_token(Type::Bang, "!"@),
    {
        Token::new_null(Type::Bang, "!")
    }

    /// The fixed `=` token.
    pub fn equal() -> (t: Token<'a>)
        ensures
            t@ == null_token(Type::Equal, "="@),
    {
        Token::new_null(Type::Equal, "=")
    }

    /// The fixed `<` token.
    pub fn less() -> (t: Token<'a>)
        ensures
            t@ == null_token(Type::Less, "<"@),
    {
        Token::new_null(Type::Less, "<")
    }

    /// The fixed `>` token.
    pub fn greater() -> (t: Token<'a>)
        ensures
            t@ == null_token(Type::Greater, ">"@),
    {
        Token::new_null(Type::Greater, ">")
    }

    /// The fixed `/` token.
    pub fn slash() -> (t: Token<'a>)
        ensures
            t@ == null_token(Type::Slash, "/"@),
    {
        Token::new_null(Type::Slash, "/")
    }

    /// The fixed `.` token.
    pub fn dot() -> (t: Token<'a>)
        ensures
            t@ == null_token(Type::Dot, "."@),
    {
        Token::new_null(Type::Dot, ".")
    }

    /// The fixed `!=` token.
    pub fn bang_equal() -> (t: Token<'a>)
        ensures
            t@ == null_token(Type::BangEqual, "!="@),
    {
        Token::new_null(Type::BangEqual, "!=")
    }

    /// The fixed `==` token.
    pub fn equal_equal() -> (t: Token<'a>)
        ensures
            t@ == null_token(Type::EqualEqual, "=="@),
    {
        Token::new_null(Type::EqualEqual, "==")
    }

    /// The fixed `<=` token.
    pub fn less_equal() -> (t: Token<'a>)
        ensures
            t@ == null_token(Type::LessEqual, "<="@),
    {
        Token::new_null(Type::LessEqual, "<=")
    }

    /// The fixed `>=` token.
    pub fn greater_equal() -> (t: Token<'a>)
        ensures
            t@ == null_token(Type::GreaterEqual, ">="@),
    {
        Token::new_null(Type::GreaterEqual, ">=")
    }

    /// The single terminal token, with an empty lexeme.
    pub fn eof() -> (t: Token<'a>)
        ensures
            t@ == null_token(Type::Eof, Seq::empty()),
    {
        proof {
            reveal_strlit("");
            assert(""@ =~= Seq::<char>::empty());
        }
        Token::new_null(Type::Eof, "")
    }

    /// The token's textual rendering: `<CATEGORY> <lexeme> <literal>`.
    pub fn render(&self) -> (s: String)
        ensures
            s@ == spec_token_render(self@),
    {
        let mut s = self.ty.name();
        s.append(" ");
        s.append(self.lexeme);
        s.append(" ");
        let lit = self.literal.render();
        s.append(lit.as_str());
        s
    }
}

} // verus!
