//! The scanner: a lazy, forward-only producer that consumes source text
//! once, left to right, and yields one token or lexical error per pull,
//! keeping a current line counter across pulls.
//!
//! The specification-level model is `scan_next`: a function from a scan
//! state (source, cursor, line, exhausted flag) to the next item and the
//! successor state. The executable scanner is proved to return exactly
//! what the model says, so the whole stream is a function of the source
//! text alone.

use vstd::prelude::*;

use crate::number::{canonical_decimal, decode_number, numeral};
use crate::text::{
    alnum_char, alnum_end, alpha_char, blank_char, count_ch, digit_char, digits_end, find_from,
    is_alnum_char, is_alpha_char, is_blank_char, is_digit_char, lemma_alnum_end,
    dec_str, lemma_count_ch_add, lemma_count_ch_le_len, lemma_count_ch_push, lemma_count_ch_zero,
    lemma_digits_end, lemma_find_from, push_char, usize_dec,
};
use crate::token::{null_token, spec_keyword, Literal, LiteralView, Token, TokenView, Type};

verus! {

/// What went wrong at one point of the scan.
#[derive(Debug, PartialEq, Eq, Clone, Copy)]
pub enum LexicalKind {
    /// A character that cannot start any token.
    UnexpectedCharacter(char),
    /// The input ended inside a string literal.
    UnterminatedString,
}

/// A lexical error, carrying the 1-based source line it is reported on.
#[derive(Debug, PartialEq, Eq, Clone, Copy)]
pub enum Error {
    Lexical { line: usize, kind: LexicalKind },
}

impl Error {
    /// A lexical error on the given line.
    pub fn lexical(line: usize, kind: LexicalKind) -> (e: Error)
        ensures
            e == (Error::Lexical { line, kind }),
    {
        Error::Lexical { line, kind }
    }
}

/// The scanner's state, at the specification level: the source text, the
/// cursor into it, the current 1-based line, and whether the terminal `Eof`
/// token has already been produced.
#[verifier::ext_equal]
pub ghost struct ScanState {
    pub src: Seq<char>,
    pub pos: int,
    pub line: int,
    pub eof: bool,
}

/// A well-formed state: the cursor is inside the source, and the line
/// counter can still grow by one per remaining character without leaving
/// `usize`.
pub open spec fn state_wf(s: ScanState) -> bool {
    &&& 0 <= s.pos <= s.src.len()
    &&& 1 <= s.line
    &&& s.line + (s.src.len() - s.pos) <= usize::MAX
}

/// The freshly constructed state for a source text.
pub open spec fn initial_state(src: Seq<char>) -> ScanState {
    ScanState { src, pos: 0, line: 1, eof: false }
}

/// A position on which a pull settles: its character is not skipped, that
/// is, it is neither whitespace nor a newline and does not open a line
/// comment.
pub open spec fn settled_at(src: Seq<char>, p: int) -> bool {
    &&& 0 <= p < src.len()
    &&& !is_blank_char(src[p])
    &&& src[p] != '\n'
    &&& !(src[p] == '/' && p + 1 < src.len() && src[p + 1] == '/')
}

/// The position the cursor settles on when pulled at `i`: whitespace and
/// newlines are passed over, and a `//` discards everything up to (not
/// including) the next newline or the end of input.
pub open spec fn skip_end(src: Seq<char>, i: int) -> int
    decreases src.len() - i,
    when 0 <= i <= src.len()
    via skip_end_decreases
{
    if i >= src.len() {
        src.len() as int
    } else if is_blank_char(src[i]) || src[i] == '\n' {
        skip_end(src, i + 1)
    } else if src[i] == '/' && i + 1 < src.len() && src[i + 1] == '/' {
        skip_end(src, find_from(src, i + 2, '\n'))
    } else {
        i
    }
}

#[via_fn]
proof fn skip_end_decreases(src: Seq<char>, i: int) {
    if 0 <= i && i + 2 <= src.len() {
        lemma_find_from(src, i + 2, '\n');
    }
}

/// Where the cursor settles is a settled position or the end of input, and
/// skipping never moves the cursor backwards.
pub proof fn lemma_skip_end(src: Seq<char>, i: int)
    requires
        0 <= i <= src.len(),
    ensures
        i <= skip_end(src, i) <= src.len(),
        skip_end(src, i) < src.len() ==> settled_at(src, skip_end(src, i)),
    decreases src.len() - i,
{
    if i < src.len() {
        if is_blank_char(src[i]) || src[i] == '\n' {
            lemma_skip_end(src, i + 1);
        } else if src[i] == '/' && i + 1 < src.len() && src[i + 1] == '/' {
            lemma_find_from(src, i + 2, '\n');
            lemma_skip_end(src, find_from(src, i + 2, '\n'));
        }
    }
}

/// The end of the maximal numeral starting at a digit position: the digit
/// run, extended across one `.` only when a digit follows it directly.
pub open spec fn num_end(src: Seq<char>, p: int) -> int
    recommends
        0 <= p < src.len(),
        is_digit_char(src[p]),
{
    let de = digits_end(src, p);
    if de < src.len() && src[de] == '.' && de + 1 < src.len() && is_digit_char(src[de + 1]) {
        digits_end(src, de + 1)
    } else {
        de
    }
}

/// The single-character token category a settled character yields, if any.
pub open spec fn single_type(c: char) -> Option<Type> {
    if c == '(' {
        Some(Type::LeftParen)
    } else if c == ')' {
        Some(Type::RightParen)
    } else if c == '{' {
        Some(Type::LeftBrace)
    } else if c == '}' {
        Some(Type::RightBrace)
    } else if c == ';' {
        Some(Type::Semicolon)
    } else if c == ',' {
        Some(Type::Comma)
    } else if c == '+' {
        Some(Type::Plus)
    } else if c == '-' {
        Some(Type::Minus)
    } else if c == '*' {
        Some(Type::Star)
    } else if c == '.' {
        Some(Type::Dot)
    } else if c == '/' {
        Some(Type::Slash)
    } else if c == '!' {
        Some(Type::Bang)
    } else if c == '=' {
        Some(Type::Equal)
    } else if c == '<' {
        Some(Type::Less)
    } else if c == '>' {
        Some(Type::Greater)
    } else {
        None
    }
}

/// The two-character token category taken when `=` follows directly:
/// maximal munch for `!=`, `==`, `<=`, `>=`.
pub open spec fn double_type(c: char) -> Option<Type> {
    if c == '!' {
        Some(Type::BangEqual)
    } else if c == '=' {
        Some(Type::EqualEqual)
    } else if c == '<' {
        Some(Type::LessEqual)
    } else if c == '>' {
        Some(Type::GreaterEqual)
    } else {
        None
    }
}

/// One pull of the scanner and its successor state.
pub ghost struct ScanStep {
    pub state: ScanState,
    pub item: Result<TokenView, Error>,
}

/// An operator token of `n` characters taken at settled position `p` on
/// line `l`.
pub open spec fn op_step(s: ScanState, p: int, l: int, ty: Type, n: int) -> ScanStep {
    ScanStep {
        state: ScanState { src: s.src, pos: p + n, line: l, eof: false },
        item: Ok(null_token(ty, s.src.subrange(p, p + n))),
    }
}

/// What one pull from a non-exhausted state produces, and the state it
/// leaves behind. The cursor first settles past whitespace, newlines and
/// line comments (counting the newlines passed over); then the settled
/// character decides: an operator (two characters when maximal munch takes
/// an `=`), a numeric literal, a string literal, an identifier or keyword,
/// the terminal `Eof` at the end of input, or a lexical error.
pub open spec fn scan_next(s: ScanState) -> ScanStep
    recommends
        state_wf(s),
        !s.eof,
{
    let src = s.src;
    let p = skip_end(src, s.pos);
    let l = s.line + count_ch(src.subrange(s.pos, p), '\n') as int;
    if p >= src.len() {
        ScanStep {
            state: ScanState { src, pos: src.len() as int, line: l, eof: true },
            item: Ok(null_token(Type::Eof, Seq::empty())),
        }
    } else {
        let c = src[p];
        if double_type(c) is Some && p + 1 < src.len() && src[p + 1] == '=' {
            op_step(s, p, l, double_type(c)->0, 2)
        } else if single_type(c) is Some {
            op_step(s, p, l, single_type(c)->0, 1)
        } else if is_digit_char(c) {
            let e = num_end(src, p);
            ScanStep {
                state: ScanState { src, pos: e, line: l, eof: false },
                item: Ok(
                    TokenView {
                        ty: Type::Number,
                        lexeme: src.subrange(p, e),
                        literal: LiteralView::Num(canonical_decimal(src.subrange(p, e))),
                    },
                ),
            }
        } else if c == '"' {
            let q = find_from(src, p + 1, '"');
            if q < src.len() {
                ScanStep {
                    state: ScanState {
                        src,
                        pos: q + 1,
                        line: l + count_ch(src.subrange(p + 1, q), '\n') as int,
                        eof: false,
                    },
                    item: Ok(
                        TokenView {
                            ty: Type::String,
                            lexeme: src.subrange(p, q + 1),
                            literal: LiteralView::Str(src.subrange(p + 1, q)),
                        },
                    ),
                }
            } else {
                ScanStep {
                    state: ScanState {
                        src,
                        pos: src.len() as int,
                        line: l + count_ch(src.subrange(p + 1, src.len() as int), '\n') as int,
                        eof: false,
                    },
                    item: Err(
                        Error::Lexical { line: l as usize, kind: LexicalKind::UnterminatedString },
                    ),
                }
            }
        } else if is_alpha_char(c) {
            let e = alnum_end(src, p);
            let w = src.subrange(p, e);
            let ty = match spec_keyword(w) {
                Some(k) => k,
                None => Type::Identifier,
            };
            ScanStep {
                state: ScanState { src, pos: e, line: l, eof: false },
                item: Ok(null_token(ty, w)),
            }
        } else {
            ScanStep {
                state: ScanState { src, pos: p + 1, line: l, eof: false },
                item: Err(
                    Error::Lexical { line: l as usize, kind: LexicalKind::UnexpectedCharacter(c) },
                ),
            }
        }
    }
}

/// One pull from a well-formed, non-exhausted state leaves a well-formed
/// state over the same source; the cursor moves strictly forward unless the
/// terminal `Eof` was just produced, and the line counter never goes back.
pub proof fn lemma_scan_next_wf(s: ScanState)
    requires
        state_wf(s),
        !s.eof,
    ensures
        ({
            let st = scan_next(s);
            &&& state_wf(st.state)
            &&& st.state.src == s.src
            &&& (st.state.eof ==> st.state.pos == s.src.len())
            &&& (!st.state.eof ==> s.pos < st.state.pos <= s.src.len())
            &&& s.line <= st.state.line
        }),
{
    let src = s.src;
    lemma_skip_end(src, s.pos);
    let p = skip_end(src, s.pos);
    lemma_count_ch_le_len(src.subrange(s.pos, p), '\n');
    if p < src.len() {
        let c = src[p];
        if double_type(c) is Some && p + 1 < src.len() && src[p + 1] == '=' {
        } else if single_type(c) is Some {
        } else if is_digit_char(c) {
            lemma_digits_end(src, p);
            let de = digits_end(src, p);
            if de < src.len() && src[de] == '.' && de + 1 < src.len() && is_digit_char(
                src[de + 1],
            ) {
                lemma_digits_end(src, de + 1);
            }
        } else if c == '"' {
            lemma_find_from(src, p + 1, '"');
            let q = find_from(src, p + 1, '"');
            if q < src.len() {
                lemma_count_ch_le_len(src.subrange(p + 1, q), '\n');
            } else {
                lemma_count_ch_le_len(src.subrange(p + 1, src.len() as int), '\n');
            }
        } else if is_alpha_char(c) {
            lemma_alnum_end(src, p);
        }
    }
}

/// Every item the scanner still has to produce from state `s`, in order:
/// the tokens and errors of the remaining input, ending with the one
/// terminal `Eof` token.
pub open spec fn stream(s: ScanState) -> Seq<Result<TokenView, Error>>
    decreases (if s.eof {
        0int
    } else {
        1int
    }), s.src.len() - s.pos,
    when state_wf(s)
    via stream_decreases
{
    if s.eof {
        Seq::empty()
    } else {
        let st = scan_next(s);
        seq![st.item] + stream(st.state)
    }
}

#[via_fn]
proof fn stream_decreases(s: ScanState) {
    if state_wf(s) && !s.eof {
        lemma_scan_next_wf(s);
    }
}

/// An error message: what went wrong, for diagnostics.
pub open spec fn spec_kind_render(k: LexicalKind) -> Seq<char> {
    match k {
        LexicalKind::UnexpectedCharacter(c) => "Unexpected character: "@.push(c),
        LexicalKind::UnterminatedString => "Unterminated string."@,
    }
}

/// A lexical error's textual rendering: `[line <n>] Error: <message>`.
pub open spec fn spec_error_render(e: Error) -> Seq<char> {
    match e {
        Error::Lexical { line, kind } => "[line "@ + dec_str(line as int) + "] Error: "@
            + spec_kind_render(kind),
    }
}

impl LexicalKind {
    /// The error message for this kind.
    pub fn render(&self) -> (s: String)
        ensures
            s@ == spec_kind_render(*self),
    {
        match self {
            LexicalKind::UnexpectedCharacter(c) => {
                let mut s = String::from_str("Unexpected character: ");
                push_char(&mut s, *c);
                s
            },
            LexicalKind::UnterminatedString => String::from_str("Unterminated string."),
        }
    }
}

impl Error {
    /// The error's textual rendering: `[line <n>] Error: <message>`.
    pub fn render(&self) -> (s: String)
        ensures
            s@ == spec_error_render(*self),
    {
        match self {
            Error::Lexical { line, kind } => {
                let mut s = String::from_str("[line ");
                let n = usize_dec(*line);
                s.append(n.as_str());
                s.append("] Error: ");
                let k = kind.render();
                s.append(k.as_str());
                s
            },
        }
    }
}

/// The specification-level content of one executable pull.
pub open spec fn item_view<'a>(r: Option<Result<Token<'a>, Error>>) -> Option<
    Result<TokenView, Error>,
> {
    match r {
        None => None,
        Some(Ok(t)) => Some(Ok(t@)),
        Some(Err(e)) => Some(Err(e)),
    }
}

fn single_type_of(c: char) -> (t: Option<Type>)
    ensures
        t == single_type(c),
{
    if c == '(' {
        Some(Type::LeftParen)
    } else if c == ')' {
        Some(Type::RightParen)
    } else if c == '{' {
        Some(Type::LeftBrace)
    } else if c == '}' {
        Some(Type::RightBrace)
    } else if c == ';' {
        Some(Type::Semicolon)
    } else if c == ',' {
        Some(Type::Comma)
    } else if c == '+' {
        Some(Type::Plus)
    } else if c == '-' {
        Some(Type::Minus)
    } else if c == '*' {
        Some(Type::Star)
    } else if c == '.' {
        Some(Type::Dot)
    } else if c == '/' {
        Some(Type::Slash)
    } else if c == '!' {
        Some(Type::Bang)
    } else if c == '=' {
        Some(Type::Equal)
    } else if c == '<' {
        Some(Type::Less)
    } else if c == '>' {
        Some(Type::Greater)
    } else {
        None
    }
}

fn double_type_of(c: char) -> (t: Option<Type>)
    ensures
        t == double_type(c),
{
    if c == '!' {
        Some(Type::BangEqual)
    } else if c == '=' {
        Some(Type::EqualEqual)
    } else if c == '<' {
        Some(Type::LessEqual)
    } else if c == '>' {
        Some(Type::GreaterEqual)
    } else {
        None
    }
}

/// Extending a counted region by one character adds one newline to the
/// count exactly when that character is a newline.
proof fn lemma_count_extend(src: Seq<char>, lo: int, i: int)
    requires
        0 <= lo <= i < src.len(),
    ensures
        count_ch(src.subrange(lo, i + 1), '\n') == count_ch(src.subrange(lo, i), '\n') + if src[i]
            == '\n' {
            1nat
        } else {
            0nat
        },
{
    assert(src.subrange(lo, i + 1) =~= src.subrange(lo, i).push(src[i]));
    lemma_count_ch_push(src.subrange(lo, i), src[i], '\n');
}

/// The scanner: an immutable view over the source text, a cursor with one
/// character of lookahead, a 1-based line counter, and an exhausted flag.
pub struct Scanner<'a> {
    raw: &'a str,
    len: usize,
    pos: usize,
    line: usize,
    eof: bool,
}

impl View for Scanner<'_> {
    type V = ScanState;

    closed spec fn view(&self) -> ScanState {
        ScanState {
            src: self.raw@,
            pos: self.pos as int,
            line: self.line as int,
            eof: self.eof,
        }
    }
}

impl<'a> Scanner<'a> {
    /// Internal consistency: the cached length is the character length of
    /// the source.
    pub closed spec fn inv(&self) -> bool {
        self.len == self.raw@.len()
    }

    /// The scanner's well-formedness, established by `new` and preserved by
    /// every pull.
    pub open spec fn wf(&self) -> bool {
        &&& state_wf(self@)
        &&& self.inv()
    }

    /// A fresh scanner over `input`, at its start, on line 1.
    ///
    /// The length bound leaves the line counter room to grow by one per
    /// character without leaving `usize`.
    pub fn new(input: &'a str) -> (s: Scanner<'a>)
        requires
            input@.len() < usize::MAX,
        ensures
            s.wf(),
            s@ == initial_state(input@),
    {
        Scanner { raw: input, len: input.unicode_len(), pos: 0, line: 1, eof: false }
    }

    /// Scans the string literal whose opening quote stands at the settled
    /// position `p`: on success the token's lexeme includes both quotes and
    /// its literal is the text strictly between them, newlines preserved;
    /// when the input ends first, the error reports the line the quote
    /// opened on and the rest of the input is consumed.
    fn string(&mut self, p: usize) -> (r: Result<Token<'a>, Error>)
        requires
            old(self).wf(),
            !old(self)@.eof,
            old(self)@.pos == p,
            p < old(self)@.src.len(),
            old(self)@.src[p as int] == '"',
        ensures
            final(self).wf(),
            final(self)@.src == old(self)@.src,
            final(self)@.eof == old(self)@.eof,
            ({
                let src = old(self)@.src;
                let l = old(self)@.line;
                let q = find_from(src, p + 1, '"');
                if q < src.len() {
                    &&& final(self)@.pos == q + 1
                    &&& final(self)@.line == l + count_ch(src.subrange(p + 1, q), '\n')
                    &&& r matches Ok(t) && t@ == (TokenView {
                        ty: Type::String,
                        lexeme: src.subrange(p as int, q + 1),
                        literal: LiteralView::Str(src.subrange(p + 1, q)),
                    })
                } else {
                    &&& final(self)@.pos == src.len()
                    &&& final(self)@.line == l + count_ch(
                        src.subrange(p + 1, src.len() as int),
                        '\n',
                    )
                    &&& r == Err::<Token<'a>, Error>(
                        Error::Lexical { line: l as usize, kind: LexicalKind::UnterminatedString },
                    )
                }
            }),
    {
        let ghost src = self@.src;
        let ghost l0 = self@.line;
        let raw = self.raw;
        let start_line = self.line;
        let mut q = p + 1;
        proof {
            assert(src.subrange(p + 1, p + 1) =~= Seq::<char>::empty());
        }
        while q < self.len && raw.get_char(q) != '"'
            invariant
                self.inv(),
                self.raw == raw,
                self@.src == src,
                self@.pos == p,
                self@.eof == old(self)@.eof,
                p + 1 <= q <= self.len,
                self.len == src.len(),
                forall|k: int| p + 1 <= k < q ==> src[k] != '"',
                self@.line == l0 + count_ch(src.subrange(p + 1, q as int), '\n'),
                l0 == old(self)@.line,
                1 <= l0,
                l0 + (src.len() - p) <= usize::MAX,
            decreases self.len - q,
        {
            proof {
                lemma_count_ch_le_len(src.subrange(p + 1, q as int), '\n');
                lemma_count_extend(src, p + 1, q as int);
            }
            if raw.get_char(q) == '\n' {
                self.line = self.line + 1;
            }
            q = q + 1;
        }
        proof {
            lemma_find_from(src, p + 1, '"');
            assert(q as int == find_from(src, p + 1, '"') || (q == self.len && find_from(
                src,
                p + 1,
                '"',
            ) == src.len()));
            lemma_count_ch_le_len(src.subrange(p + 1, q as int), '\n');
        }
        if q < self.len {
            self.pos = q + 1;
            let lex = raw.substring_char(p, q + 1);
            let lit = raw.substring_char(p + 1, q);
            Ok(Token::new(Type::String, lex, Literal::Str(lit)))
        } else {
            self.pos = self.len;
            Err(Error::Lexical { line: start_line, kind: LexicalKind::UnterminatedString })
        }
    }

    /// Scans the numeric literal starting with the digit at the settled
    /// position `p`: a maximal digit run, extended across one `.` only when
    /// a digit follows it directly; the token carries the canonical decimal
    /// form of the matched text.
    fn num(&mut self, p: usize) -> (t: Token<'a>)
        requires
            old(self).wf(),
            !old(self)@.eof,
            old(self)@.pos == p,
            p < old(self)@.src.len(),
            is_digit_char(old(self)@.src[p as int]),
        ensures
            final(self).wf(),
            final(self)@.src == old(self)@.src,
            final(self)@.eof == old(self)@.eof,
            final(self)@.line == old(self)@.line,
            final(self)@.pos == num_end(old(self)@.src, p as int),
            t@ == (TokenView {
                ty: Type::Number,
                lexeme: old(self)@.src.subrange(p as int, num_end(old(self)@.src, p as int)),
                literal: LiteralView::Num(
                    canonical_decimal(
                        old(self)@.src.subrange(p as int, num_end(old(self)@.src, p as int)),
                    ),
                ),
            }),
    {
        let ghost src = self@.src;
        let raw = self.raw;
        let mut e = p + 1;
        while e < self.len && digit_char(raw.get_char(e))
            invariant
                self.inv(),
                self.raw == raw,
                self@.src == src,
                self.len == src.len(),
                p < e <= self.len,
                digits_end(src, p as int) == digits_end(src, e as int),
            decreases self.len - e,
        {
            e = e + 1;
        }
        let de = e;
        proof {
            assert(digits_end(src, p as int) == de as int);
        }
        let end: usize;
        if de < self.len && raw.get_char(de) == '.' && de + 1 < self.len && digit_char(
            raw.get_char(de + 1),
        ) {
            let mut e2 = de + 2;
            proof {
                assert(digits_end(src, de + 1) == digits_end(src, de + 2));
            }
            while e2 < self.len && digit_char(raw.get_char(e2))
                invariant
                    self.inv(),
                    self.raw == raw,
                    self@.src == src,
                    self.len == src.len(),
                    de + 1 < e2 <= self.len,
                    digits_end(src, de + 1) == digits_end(src, e2 as int),
                decreases self.len - e2,
            {
                e2 = e2 + 1;
            }
            proof {
                assert(digits_end(src, de + 1) == e2 as int);
            }
            end = e2;
        } else {
            end = de;
        }
        proof {
            assert(end as int == num_end(src, p as int));
        }
        self.pos = end;
        let lex = raw.substring_char(p, end);
        proof {
            lemma_numeral_shape(src, p as int, end as int);
            assert(lex@ == src.subrange(p as int, end as int));
        }
        let val = decode_number(lex);
        Token::new(Type::Number, lex, Literal::Num(val))
    }

    /// One pull: the next token or lexical error, or `None` once the stream
    /// is exhausted. The result and the new state are exactly what the
    /// specification-level `scan_next` says of the old state.
    pub fn next(&mut self) -> (r: Option<Result<Token<'a>, Error>>)
        requires
            old(self).wf(),
        ensures
            final(self).wf(),
            old(self)@.eof ==> r is None && final(self)@ == old(self)@,
            !old(self)@.eof ==> final(self)@ == scan_next(old(self)@).state && item_view(r)
                == Some(scan_next(old(self)@).item),
    {
        if self.eof {
            return None;
        }
        let ghost s0 = self@;
        let ghost src = s0.src;
        let raw = self.raw;
        proof {
            assert(src.subrange(s0.pos, s0.pos) =~= Seq::<char>::empty());
        }
        let mut settled: bool = false;
        while !settled
            invariant
                self.inv(),
                self.raw == raw,
                self@.src == src,
                self@.eof == false,
                state_wf(self@),
                state_wf(s0),
                s0.src == src,
                s0.pos <= self@.pos,
                skip_end(src, self@.pos) == skip_end(src, s0.pos),
                self@.line == s0.line + count_ch(src.subrange(s0.pos, self@.pos), '\n'),
                settled ==> self@.pos == skip_end(src, s0.pos),
            decreases self@.src.len() - self@.pos, (if settled {
                0int
            } else {
                1int
            }),
        {
            if self.pos >= self.len {
                settled = true;
            } else {
                let c = raw.get_char(self.pos);
                if blank_char(c) {
                    proof {
                        lemma_count_extend(src, s0.pos, self@.pos);
                    }
                    self.pos = self.pos + 1;
                } else if c == '\n' {
                    proof {
                        lemma_count_extend(src, s0.pos, self@.pos);
                        lemma_count_ch_le_len(src.subrange(s0.pos, self@.pos), '\n');
                    }
                    self.line = self.line + 1;
                    self.pos = self.pos + 1;
                } else if c == '/' && self.pos + 1 < self.len && raw.get_char(self.pos + 1)
                    == '/' {
                    let ghost pc = self@.pos;
                    self.pos = self.pos + 2;
                    while self.pos < self.len && raw.get_char(self.pos) != '\n'
                        invariant
                            self.inv(),
                            self.raw == raw,
                            self@.src == src,
                            self@.eof == false,
                            self@.line == s0.line + count_ch(src.subrange(s0.pos, pc), '\n'),
                            state_wf(s0),
                            s0.src == src,
                            s0.pos <= pc,
                            pc + 2 <= self@.pos <= src.len(),
                            src[pc] == '/' && src[pc + 1] == '/',
                            forall|k: int| pc + 2 <= k < self@.pos ==> src[k] != '\n',
                            skip_end(src, pc) == skip_end(src, s0.pos),
                            self@.line + (src.len() - pc) <= usize::MAX,
                        decreases self@.src.len() - self@.pos,
                    {
                        self.pos = self.pos + 1;
                    }
                    proof {
                        lemma_find_from(src, pc + 2, '\n');
                        assert(self@.pos == find_from(src, pc + 2, '\n'));
                        // the characters passed over hold no newline, so the
                        // line count over the consumed region is unchanged
                        assert(src.subrange(s0.pos, self@.pos) =~= src.subrange(s0.pos, pc)
                            + src.subrange(pc, self@.pos));
                        lemma_count_ch_add(
                            src.subrange(s0.pos, pc),
                            src.subrange(pc, self@.pos),
                            '\n',
                        );
                        lemma_count_ch_zero(src.subrange(pc, self@.pos), '\n');
                    }
                } else {
                    settled = true;
                }
            }
        }
        proof {
            lemma_skip_end(src, s0.pos);
            lemma_count_ch_le_len(src.subrange(s0.pos, self@.pos), '\n');
        }
        let ghost l = s0.line + count_ch(src.subrange(s0.pos, skip_end(src, s0.pos)), '\n') as int;
        if self.pos >= self.len {
            self.eof = true;
            proof {
                reveal_strlit("");
                assert(""@ =~= Seq::<char>::empty());
            }
            return Some(Ok(Token::new_null(Type::Eof, "")));
        }
        let p = self.pos;
        let c = raw.get_char(p);
        let d = double_type_of(c);
        if d.is_some() && p + 1 < self.len && raw.get_char(p + 1) == '=' {
            let ty = d.unwrap();
            self.pos = p + 2;
            let lex = raw.substring_char(p, p + 2);
            return Some(Ok(Token::new_null(ty, lex)));
        }
        if let Some(ty) = single_type_of(c) {
            self.pos = p + 1;
            let lex = raw.substring_char(p, p + 1);
            return Some(Ok(Token::new_null(ty, lex)));
        }
        if digit_char(c) {
            return Some(Ok(self.num(p)));
        }
        if c == '"' {
            return Some(self.string(p));
        }
        if alpha_char(c) {
            let mut e = p + 1;
            proof {
                assert(alnum_end(src, p as int) == alnum_end(src, p + 1));
            }
            while e < self.len && alnum_char(raw.get_char(e))
                invariant
                    self.inv(),
                    self.raw == raw,
                    self@.src == src,
                    self.len == src.len(),
                    p < e <= self.len,
                    alnum_end(src, p as int) == alnum_end(src, e as int),
                decreases self.len - e,
            {
                e = e + 1;
            }
            proof {
                assert(alnum_end(src, p as int) == e as int);
            }
            self.pos = e;
            let w = raw.substring_char(p, e);
            let ty = match Token::reserved_type(w) {
                Some(k) => k,
                None => Type::Identifier,
            };
            return Some(Ok(Token::new_null(ty, w)));
        }
        self.pos = p + 1;
        Some(Err(Error::Lexical { line: self.line, kind: LexicalKind::UnexpectedCharacter(c) }))
    }
}

/// The maximal numeral matched by the scanner has the numeral shape that
/// number decoding expects: digits with at most one `.`, a digit on each
/// side of it.
proof fn lemma_numeral_shape(src: Seq<char>, p: int, end: int)
    requires
        0 <= p < src.len(),
        is_digit_char(src[p]),
        end == num_end(src, p),
    ensures
        numeral(src.subrange(p, end)),
{
    lemma_digits_end(src, p);
    let de = digits_end(src, p);
    let w = src.subrange(p, end);
    if de < src.len() && src[de] == '.' && de + 1 < src.len() && is_digit_char(src[de + 1]) {
        lemma_digits_end(src, de + 1);
        let dot = de - p;
        assert(w[dot] == '.');
        assert(forall|i: int| 0 <= i < w.len() && i != dot ==> is_digit_char(w[i]));
        lemma_find_from(w, 0, '.');
        assert(find_from(w, 0, '.') == dot) by {
            if find_from(w, 0, '.') < dot {
                assert(is_digit_char(w[find_from(w, 0, '.')]));
            }
        }
    } else {
        assert(forall|i: int| 0 <= i < w.len() ==> is_digit_char(w[i]));
        lemma_find_from(w, 0, '.');
        assert(find_from(w, 0, '.') == w.len()) by {
            if find_from(w, 0, '.') < w.len() {
                assert(is_digit_char(w[find_from(w, 0, '.')]));
            }
        }
    }
}

} // verus!
