use vstd::prelude::*;

use crate::shell::Shell;
use crate::text::{chars_of, push_char};

verus! {

/// Where the scanner stands between two characters of a line.
#[derive(Clone, Copy, Debug, PartialEq, Eq, Structural)]
pub enum Mode {
    /// Outside any quotes.
    Plain,
    /// Inside single quotes: everything is literal.
    Single,
    /// Inside double quotes: only a few backslash pairs collapse.
    Double,
    /// Just after a bare backslash outside quotes.
    Escape,
    /// Just after a backslash inside double quotes.
    DoubleEscape,
}

/// The scanner's state: its mode, the words finished so far, and the word
/// being built.
pub struct ScanState {
    pub mode: Mode,
    pub done: Seq<Seq<char>>,
    pub word: Seq<char>,
}

pub open spec fn initial_state() -> ScanState {
    ScanState { mode: Mode::Plain, done: Seq::empty(), word: Seq::empty() }
}

/// Ends the word being built, if it holds anything.
pub open spec fn flush(st: ScanState) -> ScanState {
    if st.word.len() > 0 {
        ScanState { mode: st.mode, done: st.done.push(st.word), word: Seq::empty() }
    } else {
        st
    }
}

pub open spec fn with_char(st: ScanState, m: Mode, c: char) -> ScanState {
    ScanState { mode: m, done: st.done, word: st.word.push(c) }
}

pub open spec fn with_mode(st: ScanState, m: Mode) -> ScanState {
    ScanState { mode: m, done: st.done, word: st.word }
}

/// A character that a backslash escapes inside double quotes.
pub open spec fn is_double_escapable(c: char) -> bool {
    c == '\\' || c == '$' || c == '"' || c == '\n'
}

/// What one character of input does to the scanner.
pub open spec fn step(st: ScanState, c: char) -> ScanState {
    match st.mode {
        Mode::Plain => {
            if c == '\'' {
                with_mode(st, Mode::Single)
            } else if c == '"' {
                with_mode(st, Mode::Double)
            } else if c == '\\' {
                with_mode(st, Mode::Escape)
            } else if c == ' ' {
                flush(st)
            } else {
                with_char(st, Mode::Plain, c)
            }
        },
        Mode::Single => {
            if c == '\'' {
                with_mode(st, Mode::Plain)
            } else {
                with_char(st, Mode::Single, c)
            }
        },
        Mode::Double => {
            if c == '"' {
                with_mode(st, Mode::Plain)
            } else if c == '\\' {
                with_mode(st, Mode::DoubleEscape)
            } else {
                with_char(st, Mode::Double, c)
            }
        },
        Mode::Escape => with_char(st, Mode::Plain, c),
        Mode::DoubleEscape => {
            if is_double_escapable(c) {
                with_char(st, Mode::Double, c)
            } else {
                ScanState { mode: Mode::Double, done: st.done, word: st.word.push('\\').push(c) }
            }
        },
    }
}

/// The scanner's state after reading `s` from `st`, left to right.
pub open spec fn scan(st: ScanState, s: Seq<char>) -> ScanState
    decreases s.len(),
{
    if s.len() == 0 {
        st
    } else {
        scan(step(st, s[0]), s.drop_first())
    }
}

/// The words of a finished scan: a pending word counts, whatever the mode.
pub open spec fn finish(st: ScanState) -> Seq<Seq<char>> {
    flush(st).done
}

/// The tokens of a line.
pub open spec fn tokens_of(s: Seq<char>) -> Seq<Seq<char>> {
    finish(scan(initial_state(), s))
}

pub open spec fn all_nonempty(ws: Seq<Seq<char>>) -> bool {
    forall|k: int| 0 <= k < ws.len() ==> (#[trigger] ws[k]).len() > 0
}

pub open spec fn strings_view(v: Seq<String>) -> Seq<Seq<char>> {
    v.map_values(|t: String| t@)
}

proof fn lemma_step_nonempty(st: ScanState, c: char)
    requires
        all_nonempty(st.done),
    ensures
        all_nonempty(step(st, c).done),
{
}

/// Scanning never finishes an empty word.
pub proof fn lemma_scan_nonempty(st: ScanState, s: Seq<char>)
    requires
        all_nonempty(st.done),
    ensures
        all_nonempty(scan(st, s).done),
        all_nonempty(finish(scan(st, s))),
    decreases s.len(),
{
    if s.len() > 0 {
        lemma_step_nonempty(st, s[0]);
        lemma_scan_nonempty(step(st, s[0]), s.drop_first());
    }
}

/// Scanning a concatenation scans its parts in turn.
pub proof fn lemma_scan_concat(st: ScanState, a: Seq<char>, b: Seq<char>)
    ensures
        scan(st, a + b) == scan(scan(st, a), b),
    decreases a.len(),
{
    if a.len() > 0 {
        assert((a + b).drop_first() =~= a.drop_first() + b);
        lemma_scan_concat(step(st, a[0]), a.drop_first(), b);
    } else {
        assert(a + b =~= b);
    }
}

impl Shell {
    /// Splits a line into shell words: spaces separate words, single quotes
    /// keep everything literal, double quotes collapse only `\\`, `\$`,
    /// `\"` and a backslash before a newline, and a bare backslash makes the
    /// next character literal. Unterminated quotes run to the end of the line.
    pub fn tokenize(input: &str) -> (r: Vec<String>)
        ensures
            strings_view(r@) == tokens_of(input@),
            forall|k: int| 0 <= k < r.len() ==> (#[trigger] r[k]@).len() > 0,
    {
        let chars = chars_of(input);
        let mut tokens: Vec<String> = Vec::new();
        let mut current = String::new();
        let mut mode = Mode::Plain;
        let mut i: usize = 0;
        proof {
            assert(chars@.subrange(0, chars@.len() as int) =~= chars@);
            assert(strings_view(tokens@) =~= Seq::<Seq<char>>::empty());
        }
        while i < chars.len()
            invariant
                chars@ == input@,
                i <= chars.len(),
                scan(
                    ScanState { mode, done: strings_view(tokens@), word: current@ },
                    chars@.subrange(i as int, chars@.len() as int),
                ) == scan(initial_state(), input@),
            decreases chars.len() - i,
        {
            let ghost st = ScanState { mode, done: strings_view(tokens@), word: current@ };
            let ghost rest = chars@.subrange(i as int, chars@.len() as int);
            let c = chars[i];
            match mode {
                Mode::Plain => {
                    if c == '\'' {
                        mode = Mode::Single;
                    } else if c == '"' {
                        mode = Mode::Double;
                    } else if c == '\\' {
                        mode = Mode::Escape;
                    } else if c == ' ' {
                        if current.as_str().unicode_len() > 0 {
                            tokens.push(current);
                            current = String::new();
                        }
                    } else {
                        push_char(&mut current, c);
                    }
                },
                Mode::Single => {
                    if c == '\'' {
                        mode = Mode::Plain;
                    } else {
                        push_char(&mut current, c);
                    }
                },
                Mode::Double => {
                    if c == '"' {
                        mode = Mode::Plain;
                    } else if c == '\\' {
                        mode = Mode::DoubleEscape;
                    } else {
                        push_char(&mut current, c);
                    }
                },
                Mode::Escape => {
                    push_char(&mut current, c);
                    mode = Mode::Plain;
                },
                Mode::DoubleEscape => {
                    if !(c == '\\' || c == '$' || c == '"' || c == '\n') {
                        push_char(&mut current, '\\');
                    }
                    push_char(&mut current, c);
                    mode = Mode::Double;
                },
            }
            proof {
                assert(strings_view(tokens@) =~= step(st, c).done);
                assert(rest.drop_first() =~= chars@.subrange(i + 1, chars@.len() as int));
            }
            i = i + 1;
        }
        if current.as_str().unicode_len() > 0 {
            tokens.push(current);
        }
        proof {
            assert(strings_view(tokens@) =~= tokens_of(input@));
            lemma_scan_nonempty(initial_state(), input@);
            assert forall|k: int| 0 <= k < tokens.len() implies (#[trigger] tokens[k]@).len() > 0 by {
                assert(strings_view(tokens@)[k] == tokens[k]@);
            }
        }
        tokens
    }
}

} // verus!
