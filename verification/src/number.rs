//! Decoding of numeric literals.
//!
//! A numeral's lexeme is a run of ASCII digits with at most one fractional
//! separator. Its decoded value is kept as the canonical decimal form of
//! that text: leading zeros of the integer part and trailing zeros of the
//! fractional part are dropped, and a fractional part is always present,
//! so an integral numeral such as `1234` decodes to `1234.0`.

use vstd::prelude::*;

use crate::text::{
    find_from, is_digit_char, lemma_find_from, lemma_run_end, lemma_trim_zeros_end, run_end,
    trim_zeros_end,
};

verus! {

/// The shape of a numeric literal's lexeme: one or more digits, then at
/// most one `.` that is both preceded and followed by a digit.
pub open spec fn numeral(s: Seq<char>) -> bool {
    let dot = find_from(s, 0, '.');
    &&& s.len() > 0
    &&& forall|i: int| 0 <= i < s.len() && i != dot ==> is_digit_char(s[i])
    &&& (dot == s.len() || (1 <= dot && dot <= s.len() - 2))
}

/// The canonical decimal form of a numeral: no leading zeros before the
/// point (but one digit at least), no trailing zeros after it (but one
/// digit at least), and always an explicit fractional part.
pub open spec fn canonical_decimal(s: Seq<char>) -> Seq<char>
    recommends
        numeral(s),
{
    let dot = find_from(s, 0, '.');
    let z = run_end(s, 0, '0');
    let k = if z >= dot {
        dot - 1
    } else {
        z
    };
    let ip = s.subrange(k, dot);
    if dot == s.len() {
        ip + ".0"@
    } else {
        let fe = trim_zeros_end(s, dot + 1, s.len() as int);
        if fe == dot + 1 {
            ip + ".0"@
        } else {
            ip + "."@ + s.subrange(dot + 1, fe)
        }
    }
}

/// Decodes a numeral to its canonical decimal form.
pub fn decode_number(lex: &str) -> (r: String)
    requires
        numeral(lex@),
    ensures
        r@ == canonical_decimal(lex@),
{
    let n = lex.unicode_len();
    let mut dot: usize = 0;
    while dot < n && lex.get_char(dot) != '.'
        invariant
            0 <= dot <= n,
            n == lex@.len(),
            forall|j: int| 0 <= j < dot ==> lex@[j] != '.',
        decreases n - dot,
    {
        dot += 1;
    }
    proof {
        lemma_find_from(lex@, 0, '.');
        assert(dot as int == find_from(lex@, 0, '.'));
    }
    let mut z: usize = 0;
    while z < n && lex.get_char(z) == '0'
        invariant
            0 <= z <= n,
            n == lex@.len(),
            forall|j: int| 0 <= j < z ==> lex@[j] == '0',
        decreases n - z,
    {
        z += 1;
    }
    proof {
        lemma_run_end(lex@, 0, '0');
        assert(z as int == run_end(lex@, 0, '0'));
    }
    let k = if z >= dot {
        dot - 1
    } else {
        z
    };
    let ip = lex.substring_char(k, dot);
    let mut r = String::from_str(ip);
    if dot == n {
        r.append(".0");
    } else {
        let mut fe: usize = n;
        while fe > dot + 1 && lex.get_char(fe - 1) == '0'
            invariant
                dot + 1 <= fe <= n,
                n == lex@.len(),
                dot < n,
                forall|j: int| fe <= j < n ==> lex@[j] == '0',
            decreases fe,
        {
            fe -= 1;
        }
        proof {
            lemma_trim_zeros_end(lex@, dot + 1, n as int);
            assert(fe as int == trim_zeros_end(lex@, dot + 1, n as int));
        }
        if fe == dot + 1 {
            r.append(".0");
        } else {
            r.append(".");
            let fp = lex.substring_char(dot + 1, fe);
            r.append(fp);
        }
    }
    r
}

} // verus!
