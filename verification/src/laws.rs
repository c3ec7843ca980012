//! Laws of the scanner, stated over the specification-level model and
//! proved once for all inputs: what the token stream looks like for
//! operator-only input, maximal munch, comment skipping, unterminated and
//! multi-line strings, determinism, whole-word keyword matching, and the
//! single terminal `EOF` line.

use vstd::prelude::*;

use crate::scanner::{
    double_type, lemma_scan_next_wf, lemma_skip_end, num_end, scan_next, single_type, skip_end,
    state_wf, stream, Error, LexicalKind, ScanState,
};
use crate::text::{
    alnum_end, count_ch, digits_end, find_from, is_alnum_char, is_alpha_char, is_digit_char,
    lemma_alnum_end, lemma_count_ch_zero, lemma_digits_end, lemma_find_from,
};
use crate::token::{null_token, spec_keyword, spec_token_render, LiteralView, TokenView, Type};
use crate::tokenize::token_lines;

verus! {

/// The terminal item of every complete scan.
pub open spec fn eof_item() -> Result<TokenView, Error> {
    Ok(null_token(Type::Eof, Seq::empty()))
}

/// Every complete scan produces exactly one terminal `Eof` token, after
/// every other token and error, never before and never twice.
pub proof fn lemma_stream_single_eof(s: ScanState)
    requires
        state_wf(s),
        !s.eof,
    ensures
        stream(s).len() >= 1,
        stream(s).last() == eof_item(),
        forall|j: int| 0 <= j < stream(s).len() - 1 ==> stream(s)[j] != eof_item(),
    decreases s.src.len() - s.pos,
{
    lemma_scan_next_wf(s);
    let st = scan_next(s);
    if st.state.eof {
        assert(stream(st.state) =~= Seq::empty());
        assert(stream(s) =~= seq![st.item]);
    } else {
        lemma_stream_single_eof(st.state);
        assert(st.item != eof_item());
        assert(stream(s) =~= seq![st.item] + stream(st.state));
        assert forall|j: int| 0 <= j < stream(s).len() - 1 implies stream(s)[j]
            != eof_item() by {
            if j > 0 {
                assert(stream(s)[j] == stream(st.state)[j - 1]);
            }
        }
    }
}

/// A character that scans as a fixed punctuator or operator.
pub open spec fn is_operator_char(c: char) -> bool {
    single_type(c) is Some
}

/// Input made only of punctuator and operator characters scans without a
/// single error: every item of the stream is a literal-free token.
/// Together with `lemma_stream_single_eof`, the stream is the expected
/// tokens in source order, terminated by exactly one `Eof`.
pub proof fn lemma_operators_scan_clean(s: ScanState)
    requires
        state_wf(s),
        !s.eof,
        forall|i: int| s.pos <= i < s.src.len() ==> is_operator_char(#[trigger] s.src[i]),
    ensures
        forall|j: int|
            0 <= j < stream(s).len() ==> (#[trigger] stream(s)[j] matches Ok(t) && t.literal
                is Null),
    decreases s.src.len() - s.pos,
{
    lemma_scan_next_wf(s);
    lemma_skip_end(s.src, s.pos);
    let st = scan_next(s);
    if st.state.eof {
        assert(stream(st.state) =~= Seq::empty());
        assert(stream(s) =~= seq![st.item]);
    } else {
        assert(st.item matches Ok(t) && t.literal is Null);
        lemma_operators_scan_clean(st.state);
        assert(stream(s) =~= seq![st.item] + stream(st.state));
        assert forall|j: int|
            0 <= j < stream(s).len() implies (#[trigger] stream(s)[j] matches Ok(t) && t.literal
            is Null) by {
            if j > 0 {
                assert(stream(s)[j] == stream(st.state)[j - 1]);
            }
        }
    }
}

/// Maximal munch for operators: when `=` follows one of `!`, `=`, `<`, `>`
/// at the settled position, the pull takes both characters as one
/// two-character token, never the one-character token first.
pub proof fn lemma_maximal_munch_operator(s: ScanState)
    requires
        state_wf(s),
        !s.eof,
        skip_end(s.src, s.pos) + 1 < s.src.len(),
        double_type(s.src[skip_end(s.src, s.pos)]) is Some,
        s.src[skip_end(s.src, s.pos) + 1] == '=',
    ensures
        ({
            let p = skip_end(s.src, s.pos);
            &&& scan_next(s).item == Ok::<TokenView, Error>(
                null_token(double_type(s.src[p])->0, s.src.subrange(p, p + 2)),
            )
            &&& scan_next(s).state.pos == p + 2
        }),
{
    lemma_skip_end(s.src, s.pos);
}

/// Maximal munch for numerals: the matched lexeme begins and ends with a
/// digit — a trailing `.` is never absorbed — and it is maximal: the
/// character after it, if any, is not a digit.
pub proof fn lemma_number_never_absorbs_trailing_dot(src: Seq<char>, p: int)
    requires
        0 <= p < src.len(),
        is_digit_char(src[p]),
    ensures
        ({
            let e = num_end(src, p);
            &&& p < e <= src.len()
            &&& is_digit_char(src[e - 1])
            &&& (e < src.len() ==> !is_digit_char(src[e]))
        }),
{
    lemma_digits_end(src, p);
    let de = digits_end(src, p);
    if de < src.len() && src[de] == '.' && de + 1 < src.len() && is_digit_char(src[de + 1]) {
        lemma_digits_end(src, de + 1);
    }
}

/// A line comment's content is discarded whole: the cursor settles as if
/// the pull had started at the comment's terminating newline (or at the
/// end of input), whatever characters the comment holds, and no newline is
/// passed over on the way there.
pub proof fn lemma_comment_discards_content(src: Seq<char>, i: int)
    requires
        0 <= i,
        i + 1 < src.len(),
        src[i] == '/',
        src[i + 1] == '/',
    ensures
        skip_end(src, i) == skip_end(src, find_from(src, i + 2, '\n')),
        forall|k: int| i + 2 <= k < find_from(src, i + 2, '\n') ==> src[k] != '\n',
        count_ch(src.subrange(i, find_from(src, i + 2, '\n')), '\n') == 0,
{
    lemma_find_from(src, i + 2, '\n');
    let j = find_from(src, i + 2, '\n');
    lemma_count_ch_zero(src.subrange(i, j), '\n');
}

/// An unterminated string is an error and is terminal: the pull reports
/// one `UnterminatedString` error on the line the quote opened on, the
/// rest of the input is consumed, and the only item after it is the
/// terminal `Eof`.
pub proof fn lemma_unterminated_string_is_terminal(s: ScanState)
    requires
        state_wf(s),
        !s.eof,
        skip_end(s.src, s.pos) < s.src.len(),
        s.src[skip_end(s.src, s.pos)] == '"',
        find_from(s.src, skip_end(s.src, s.pos) + 1, '"') == s.src.len(),
    ensures
        ({
            let p = skip_end(s.src, s.pos);
            let l = s.line + count_ch(s.src.subrange(s.pos, p), '\n') as int;
            stream(s) == seq![
                Err::<TokenView, Error>(
                    Error::Lexical { line: l as usize, kind: LexicalKind::UnterminatedString },
                ),
                eof_item(),
            ]
        }),
{
    lemma_scan_next_wf(s);
    lemma_skip_end(s.src, s.pos);
    let st = scan_next(s);
    lemma_scan_next_wf(st.state);
    let st2 = scan_next(st.state);
    assert(st.state.pos == s.src.len());
    assert(skip_end(st.state.src, st.state.pos) == s.src.len() as int);
    assert(st2.state.eof);
    assert(stream(st2.state) =~= Seq::empty());
    assert(stream(st.state) =~= seq![st2.item]);
    assert(st2.item == eof_item());
    assert(stream(s) =~= seq![st.item] + stream(st.state));
    assert(stream(s) =~= seq![st.item, st2.item]);
}

/// A string literal may span newlines: the token's literal is the exact
/// text strictly between the quotes, newlines preserved, and the line
/// counter advances by exactly the newlines inside the literal.
pub proof fn lemma_multiline_string(s: ScanState)
    requires
        state_wf(s),
        !s.eof,
        skip_end(s.src, s.pos) < s.src.len(),
        s.src[skip_end(s.src, s.pos)] == '"',
        find_from(s.src, skip_end(s.src, s.pos) + 1, '"') < s.src.len(),
    ensures
        ({
            let p = skip_end(s.src, s.pos);
            let l = s.line + count_ch(s.src.subrange(s.pos, p), '\n') as int;
            let q = find_from(s.src, p + 1, '"');
            let lit = s.src.subrange(p + 1, q);
            &&& scan_next(s).item == Ok::<TokenView, Error>(
                TokenView {
                    ty: Type::String,
                    lexeme: s.src.subrange(p, q + 1),
                    literal: LiteralView::Str(lit),
                },
            )
            &&& scan_next(s).state.line == l + count_ch(lit, '\n')
            &&& scan_next(s).state.pos == q + 1
        }),
{
    lemma_skip_end(s.src, s.pos);
}

/// Scanning is deterministic: the whole stream, and every single step, is
/// a function of the state alone, so two fresh scanners over the same
/// source yield identical item sequences. The executable scanner is pinned
/// to `scan_next` by its contract, and the tokenizer's channels to
/// `token_lines` and `error_lines`, so the rendered output is likewise a
/// function of the source text alone.
pub proof fn lemma_scan_deterministic(a: ScanState, b: ScanState)
    requires
        a.src == b.src,
        a.pos == b.pos,
        a.line == b.line,
        a.eof == b.eof,
    ensures
        scan_next(a) == scan_next(b),
        stream(a) == stream(b),
{
    assert(a =~= b);
}

/// Keyword matching is whole-word: an identifier's lexeme is the maximal
/// run of identifier characters, and only a lexeme exactly equal to a
/// reserved word scans as that keyword — any other run, a reserved word
/// inside a longer identifier included, scans as `Identifier`.
pub proof fn lemma_keyword_needs_whole_word(s: ScanState)
    requires
        state_wf(s),
        !s.eof,
        skip_end(s.src, s.pos) < s.src.len(),
        is_alpha_char(s.src[skip_end(s.src, s.pos)]),
    ensures
        ({
            let p = skip_end(s.src, s.pos);
            let e = alnum_end(s.src, p);
            let w = s.src.subrange(p, e);
            &&& (e == s.src.len() || !is_alnum_char(s.src[e]))
            &&& scan_next(s).item == Ok::<TokenView, Error>(
                null_token(
                    match spec_keyword(w) {
                        Some(k) => k,
                        None => Type::Identifier,
                    },
                    w,
                ),
            )
            &&& (spec_keyword(w) is None ==> scan_next(s).item == Ok::<TokenView, Error>(
                null_token(Type::Identifier, w),
            ))
            &&& scan_next(s).state.pos == e
        }),
{
    lemma_skip_end(s.src, s.pos);
    let p = skip_end(s.src, s.pos);
    lemma_alnum_end(s.src, p);
}

/// The terminal token renders as the fixed final line.
pub proof fn lemma_render_eof_line()
    ensures
        spec_token_render(null_token(Type::Eof, Seq::empty())) == "EOF  null"@,
{
    reveal_strlit("EOF");
    reveal_strlit(" ");
    reveal_strlit("null");
    reveal_strlit("EOF  null");
    assert(spec_token_render(null_token(Type::Eof, Seq::empty())) =~= "EOF  null"@);
}

/// The tokenizer's final token line is always `EOF  null`.
pub proof fn lemma_token_lines_end_with_eof(s: ScanState)
    requires
        state_wf(s),
        !s.eof,
    ensures
        token_lines(s).len() >= 1,
        token_lines(s).last() == "EOF  null"@,
    decreases s.src.len() - s.pos,
{
    lemma_scan_next_wf(s);
    lemma_render_eof_line();
    let st = scan_next(s);
    if st.state.eof {
        assert(token_lines(st.state) =~= Seq::empty());
        assert(token_lines(s) =~= seq![spec_token_render(null_token(Type::Eof, Seq::empty()))]);
    } else {
        lemma_token_lines_end_with_eof(st.state);
        match st.item {
            Ok(t) => {
                assert(token_lines(s) =~= seq![spec_token_render(t)] + token_lines(st.state));
                assert(token_lines(s).last() == token_lines(st.state).last());
            },
            Err(_) => {
                assert(token_lines(s) =~= token_lines(st.state));
            },
        }
    }
}

} // verus!

