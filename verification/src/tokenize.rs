//! The tokenizer: drives a scanner over a whole source text, renders every
//! token and every lexical error, and decides the status code a driver
//! should report.
//!
//! The token lines and error lines it fills, and the code it decides, are
//! pinned to specification-level functions of the scanner's state alone, so
//! two runs over the same input always agree.

use vstd::prelude::*;

use crate::scanner::{
    initial_state, lemma_scan_next_wf, scan_next, spec_error_render, state_wf, ScanState, Scanner,
};
use crate::token::spec_token_render;

verus! {

/// The rendered lines of every token the scanner still has to produce from
/// state `s`, in source order, the terminal `EOF` line last.
pub open spec fn token_lines(s: ScanState) -> Seq<Seq<char>>
    decreases (if s.eof {
        0int
    } else {
        1int
    }), s.src.len() - s.pos,
    when state_wf(s)
    via token_lines_decreases
{
    if s.eof {
        Seq::empty()
    } else {
        let st = scan_next(s);
        match st.item {
            Ok(t) => seq![spec_token_render(t)] + token_lines(st.state),
            Err(_) => token_lines(st.state),
        }
    }
}

#[via_fn]
proof fn token_lines_decreases(s: ScanState) {
    if state_wf(s) && !s.eof {
        lemma_scan_next_wf(s);
    }
}

/// The rendered lines of every lexical error the scanner still has to
/// produce from state `s`, in source order.
pub open spec fn error_lines(s: ScanState) -> Seq<Seq<char>>
    decreases (if s.eof {
        0int
    } else {
        1int
    }), s.src.len() - s.pos,
    when state_wf(s)
    via error_lines_decreases
{
    if s.eof {
        Seq::empty()
    } else {
        let st = scan_next(s);
        match st.item {
            Ok(_) => error_lines(st.state),
            Err(e) => seq![spec_error_render(e)] + error_lines(st.state),
        }
    }
}

#[via_fn]
proof fn error_lines_decreases(s: ScanState) {
    if state_wf(s) && !s.eof {
        lemma_scan_next_wf(s);
    }
}

/// Whether the scanner still has a lexical error to produce from state `s`.
pub open spec fn has_error(s: ScanState) -> bool
    decreases (if s.eof {
        0int
    } else {
        1int
    }), s.src.len() - s.pos,
    when state_wf(s)
    via has_error_decreases
{
    if s.eof {
        false
    } else {
        let st = scan_next(s);
        st.item is Err || has_error(st.state)
    }
}

#[via_fn]
proof fn has_error_decreases(s: ScanState) {
    if state_wf(s) && !s.eof {
        lemma_scan_next_wf(s);
    }
}

/// Drains a scanner, splitting what it produces into rendered token lines
/// and rendered error lines, and remembering in `code` whether any error
/// was seen.
pub struct Tokenizer<'a> {
    /// The scanner being drained.
    pub scanner: Scanner<'a>,
    /// One rendered line per token, in source order.
    pub out: Vec<String>,
    /// One rendered line per lexical error, in source order.
    pub err: Vec<String>,
    /// The status a driver should report: 65 once any lexical error has
    /// been seen, unchanged otherwise.
    pub code: i32,
}

impl<'a> Tokenizer<'a> {
    /// The state of the scanner being drained.
    pub open spec fn scan_state(&self) -> ScanState {
        self.scanner@
    }

    /// Well-formedness, established by `new` and preserved by `tokenize`.
    pub open spec fn wf(&self) -> bool {
        self.scanner.wf()
    }

    /// A tokenizer over `input`, with empty output channels and status 0.
    pub fn new(input: &'a str) -> (t: Tokenizer<'a>)
        requires
            input@.len() < usize::MAX,
        ensures
            t.wf(),
            t.scan_state() == initial_state(input@),
            t.out@ == Seq::<String>::empty(),
            t.err@ == Seq::<String>::empty(),
            t.code == 0,
    {
        Tokenizer { scanner: Scanner::new(input), out: Vec::new(), err: Vec::new(), code: 0 }
    }

    /// Pulls from the scanner until it is exhausted: every token's rendered
    /// line is appended to `out`, every error's to `err`, and `code`
    /// becomes 65 exactly when the remaining input held a lexical error.
    pub fn tokenize(&mut self)
        requires
            old(self).wf(),
        ensures
            final(self).wf(),
            final(self).scan_state().eof,
            final(self).out.deep_view() == old(self).out.deep_view() + token_lines(
                old(self).scan_state(),
            ),
            final(self).err.deep_view() == old(self).err.deep_view() + error_lines(
                old(self).scan_state(),
            ),
            final(self).code == if has_error(old(self).scan_state()) {
                65i32
            } else {
                old(self).code
            },
    {
        let ghost s_init = self.scanner@;
        let ghost mut seen: bool = false;
        loop
            invariant
                self.scanner.wf(),
                state_wf(s_init),
                self.out.deep_view() + token_lines(self.scanner@) == old(self).out.deep_view()
                    + token_lines(s_init),
                self.err.deep_view() + error_lines(self.scanner@) == old(self).err.deep_view()
                    + error_lines(s_init),
                has_error(s_init) == (seen || has_error(self.scanner@)),
                self.code == if seen {
                    65i32
                } else {
                    old(self).code
                },
            ensures
                self.scanner@.eof,
            decreases (if self.scanner@.eof {
                0int
            } else {
                1int
            }), self.scanner@.src.len() - self.scanner@.pos,
        {
            proof {
                if !self.scanner@.eof {
                    lemma_scan_next_wf(self.scanner@);
                }
            }
            let ghost pre_out = self.out.deep_view();
            let ghost pre_err = self.err.deep_view();
            let ghost pre = self.scanner@;
            let item = self.scanner.next();
            match item {
                None => {
                    break ;
                },
                Some(Ok(t)) => {
                    let line = t.render();
                    self.out.push(line);
                    proof {
                        assert(self.out.deep_view() =~= pre_out.push(line@));
                        assert(pre_out.push(line@) + token_lines(self.scanner@) =~= pre_out + (seq![
                            spec_token_render(t@)
                        ] + token_lines(self.scanner@)));
                    }
                },
                Some(Err(e)) => {
                    self.code = 65;
                    proof {
                        seen = true;
                    }
                    let line = e.render();
                    self.err.push(line);
                    proof {
                        assert(self.err.deep_view() =~= pre_err.push(line@));
                        assert(pre_err.push(line@) + error_lines(self.scanner@) =~= pre_err + (seq![
                            spec_error_render(e)
                        ] + error_lines(self.scanner@)));
                    }
                },
            }
        }
        proof {
            assert(self.out.deep_view() + token_lines(self.scanner@) =~= self.out.deep_view());
            assert(self.err.deep_view() + error_lines(self.scanner@) =~= self.err.deep_view());
        }
    }
}

} // verus!
