use vstd::prelude::*;

use crate::tokenizer::{
    finish, flush, initial_state, is_double_escapable, lemma_scan_concat, scan, step, tokens_of,
    Mode, ScanState,
};

verus! {

/// The text that a double-quoted body stands for: a backslash before `\`,
/// `$`, `"` or a newline gives that character alone; any other backslash is
/// kept together with the character after it.
pub open spec fn double_quoted_text(c: Seq<char>) -> Seq<char>
    decreases c.len(),
{
    if c.len() == 0 {
        Seq::empty()
    } else if c[0] == '\\' && c.len() >= 2 {
        if is_double_escapable(c[1]) {
            seq![c[1]] + double_quoted_text(c.subrange(2, c.len() as int))
        } else {
            seq!['\\', c[1]] + double_quoted_text(c.subrange(2, c.len() as int))
        }
    } else {
        seq![c[0]] + double_quoted_text(c.drop_first())
    }
}

/// A body that a double quote closes: no bare double quote in it, and no
/// backslash left over at its end.
pub open spec fn is_closed_double_body(c: Seq<char>) -> bool
    decreases c.len(),
{
    if c.len() == 0 {
        true
    } else if c[0] == '\\' {
        c.len() >= 2 && is_closed_double_body(c.subrange(2, c.len() as int))
    } else {
        c[0] != '"' && is_closed_double_body(c.drop_first())
    }
}

/// A run of `n` spaces.
pub open spec fn spaces(n: nat) -> Seq<char> {
    Seq::new(n, |_k: int| ' ')
}

/// A character with no meaning to the tokenizer.
pub open spec fn is_plain_char(c: char) -> bool {
    c != ' ' && c != '\'' && c != '"' && c != '\\'
}

pub open spec fn is_plain_text(w: Seq<char>) -> bool {
    forall|k: int| 0 <= k < w.len() ==> is_plain_char(#[trigger] w[k])
}

/// The words `ws` written out, each after the number of spaces in `gaps`
/// at the same place.
pub open spec fn spaced_words(ws: Seq<Seq<char>>, gaps: Seq<nat>) -> Seq<char>
    decreases ws.len(),
{
    if ws.len() == 0 || gaps.len() == 0 {
        Seq::empty()
    } else {
        spaced_words(ws.drop_last(), gaps.drop_last()) + spaces(gaps.last()) + ws.last()
    }
}

proof fn lemma_scan_one(st: ScanState, c: char)
    ensures
        scan(st, seq![c]) == step(st, c),
{
    let e = seq![c].drop_first();
    assert(e =~= Seq::<char>::empty());
    assert(scan(step(st, c), e) == step(st, c));
}

proof fn lemma_scan_single(st: ScanState, c: Seq<char>)
    requires
        st.mode == Mode::Single,
        !c.contains('\''),
    ensures
        scan(st, c) == (ScanState { mode: Mode::Single, done: st.done, word: st.word + c }),
    decreases c.len(),
{
    if c.len() == 0 {
        assert(st.word + c =~= st.word);
    } else {
        assert(c[0] != '\'') by {
            assert(c.contains(c[0]));
        }
        let st1 = step(st, c[0]);
        assert(!c.drop_first().contains('\'')) by {
            if c.drop_first().contains('\'') {
                let k = choose|k: int| 0 <= k < c.drop_first().len() && c.drop_first()[k] == '\'';
                assert(c[k + 1] == '\'');
            }
        }
        lemma_scan_single(st1, c.drop_first());
        assert(st.word.push(c[0]) + c.drop_first() =~= st.word + c);
    }
}

/// Single-quoted text that is not empty and holds no single quote is one
/// token, its content verbatim.
pub proof fn lemma_single_quoted(c: Seq<char>)
    requires
        c.len() > 0,
        !c.contains('\''),
    ensures
        tokens_of(seq!['\''] + c + seq!['\'']) == seq![c],
{
    let st0 = initial_state();
    let st1 = step(st0, '\'');
    lemma_scan_one(st0, '\'');
    lemma_scan_single(st1, c);
    assert(Seq::<char>::empty() + c =~= c);
    let st2 = scan(st1, c);
    lemma_scan_one(st2, '\'');
    lemma_scan_concat(st0, seq!['\''], c);
    lemma_scan_concat(st0, seq!['\''] + c, seq!['\'']);
    assert(finish(step(st2, '\'')) =~= seq![c]);
}

proof fn lemma_scan_double(st: ScanState, c: Seq<char>)
    requires
        st.mode == Mode::Double,
        is_closed_double_body(c),
    ensures
        scan(st, c) == (ScanState {
            mode: Mode::Double,
            done: st.done,
            word: st.word + double_quoted_text(c),
        }),
    decreases c.len(),
{
    if c.len() == 0 {
        assert(st.word + double_quoted_text(c) =~= st.word);
    } else if c[0] == '\\' {
        let rest = c.subrange(2, c.len() as int);
        let st1 = step(st, c[0]);
        let st2 = step(st1, c[1]);
        assert(c.drop_first().drop_first() =~= rest);
        assert(c.drop_first()[0] == c[1]);
        assert(scan(st, c) == scan(st1, c.drop_first()));
        assert(scan(st1, c.drop_first()) == scan(st2, c.drop_first().drop_first()));
        lemma_scan_double(st2, rest);
        if is_double_escapable(c[1]) {
            assert(st.word.push(c[1]) + double_quoted_text(rest) =~= st.word + double_quoted_text(c));
        } else {
            assert(st.word.push('\\').push(c[1]) + double_quoted_text(rest) =~= st.word
                + double_quoted_text(c));
        }
    } else {
        let st1 = step(st, c[0]);
        lemma_scan_double(st1, c.drop_first());
        assert(st.word.push(c[0]) + double_quoted_text(c.drop_first()) =~= st.word
            + double_quoted_text(c));
    }
}

/// A closed double-quoted body is one token, in which only the four escape
/// pairs collapse and every other backslash stays.
pub proof fn lemma_double_quoted(c: Seq<char>)
    requires
        is_closed_double_body(c),
        double_quoted_text(c).len() > 0,
    ensures
        tokens_of(seq!['"'] + c + seq!['"']) == seq![double_quoted_text(c)],
{
    let st0 = initial_state();
    let st1 = step(st0, '"');
    lemma_scan_one(st0, '"');
    lemma_scan_double(st1, c);
    assert(Seq::<char>::empty() + double_quoted_text(c) =~= double_quoted_text(c));
    let st2 = scan(st1, c);
    lemma_scan_one(st2, '"');
    lemma_scan_concat(st0, seq!['"'], c);
    lemma_scan_concat(st0, seq!['"'] + c, seq!['"']);
    assert(finish(step(st2, '"')) =~= seq![double_quoted_text(c)]);
}

proof fn lemma_scan_spaces(st: ScanState, n: nat)
    requires
        st.mode == Mode::Plain,
    ensures
        scan(st, spaces(n)) == if n == 0 {
            st
        } else {
            flush(st)
        },
    decreases n,
{
    if n > 0 {
        assert(spaces(n).drop_first() =~= spaces((n - 1) as nat));
        assert(spaces(n)[0] == ' ');
        lemma_scan_spaces(flush(st), (n - 1) as nat);
        assert(flush(flush(st)) == flush(st));
    }
}

proof fn lemma_scan_plain(st: ScanState, w: Seq<char>)
    requires
        st.mode == Mode::Plain,
        is_plain_text(w),
    ensures
        scan(st, w) == (ScanState { mode: Mode::Plain, done: st.done, word: st.word + w }),
    decreases w.len(),
{
    if w.len() == 0 {
        assert(st.word + w =~= st.word);
    } else {
        assert(is_plain_char(w[0]));
        let st1 = step(st, w[0]);
        assert(is_plain_text(w.drop_first())) by {
            assert forall|k: int| 0 <= k < w.drop_first().len() implies is_plain_char(
                #[trigger] w.drop_first()[k],
            ) by {
                assert(w.drop_first()[k] == w[k + 1]);
            }
        }
        lemma_scan_plain(st1, w.drop_first());
        assert(st.word.push(w[0]) + w.drop_first() =~= st.word + w);
    }
}

proof fn lemma_scan_spaced(ws: Seq<Seq<char>>, gaps: Seq<nat>)
    requires
        ws.len() == gaps.len(),
        forall|k: int| 0 <= k < ws.len() ==> (#[trigger] ws[k]).len() > 0,
        forall|k: int| 0 <= k < ws.len() ==> is_plain_text(#[trigger] ws[k]),
        forall|k: int| 0 < k < gaps.len() ==> #[trigger] gaps[k] >= 1,
    ensures
        scan(initial_state(), spaced_words(ws, gaps)) == if ws.len() == 0 {
            initial_state()
        } else {
            ScanState { mode: Mode::Plain, done: ws.drop_last(), word: ws.last() }
        },
    decreases ws.len(),
{
    if ws.len() > 0 {
        let pw = ws.drop_last();
        let pg = gaps.drop_last();
        assert forall|k: int| 0 < k < pg.len() implies #[trigger] pg[k] >= 1 by {
            assert(pg[k] == gaps[k]);
        }
        assert forall|k: int| 0 <= k < pw.len() implies (#[trigger] pw[k]).len() > 0
            && is_plain_text(pw[k]) by {
            assert(pw[k] == ws[k]);
        }
        lemma_scan_spaced(pw, pg);
        let prev = spaced_words(pw, pg);
        let st_prev = scan(initial_state(), prev);
        lemma_scan_concat(initial_state(), prev, spaces(gaps.last()));
        lemma_scan_concat(initial_state(), prev + spaces(gaps.last()), ws.last());
        lemma_scan_spaces(st_prev, gaps.last());
        let st_gap = scan(st_prev, spaces(gaps.last()));
        if ws.len() == 1 {
            assert(st_gap == initial_state());
        } else {
            assert(gaps[gaps.len() - 1] >= 1);
            assert(pw.last().len() > 0);
            assert(pw.drop_last().push(pw.last()) =~= pw);
        }
        assert(is_plain_text(ws[ws.len() - 1]));
        lemma_scan_plain(st_gap, ws.last());
        assert(Seq::<char>::empty() + ws.last() =~= ws.last());
        assert(pw =~= st_gap.done);
    }
}

/// Plain words separated by one or more spaces, with any number of spaces
/// before the first and after the last, come out as exactly those words: no
/// run of spaces makes an empty token.
pub proof fn lemma_spaced_words(ws: Seq<Seq<char>>, gaps: Seq<nat>, trail: nat)
    requires
        ws.len() == gaps.len(),
        forall|k: int| 0 <= k < ws.len() ==> (#[trigger] ws[k]).len() > 0,
        forall|k: int| 0 <= k < ws.len() ==> is_plain_text(#[trigger] ws[k]),
        forall|k: int| 0 < k < gaps.len() ==> #[trigger] gaps[k] >= 1,
    ensures
        tokens_of(spaced_words(ws, gaps) + spaces(trail)) == ws,
{
    lemma_scan_spaced(ws, gaps);
    let st = scan(initial_state(), spaced_words(ws, gaps));
    lemma_scan_concat(initial_state(), spaced_words(ws, gaps), spaces(trail));
    lemma_scan_spaces(st, trail);
    assert(flush(flush(st)) == flush(st));
    if ws.len() == 0 {
        assert(finish(st) =~= ws);
    } else {
        assert(ws[ws.len() - 1].len() > 0);
        assert(finish(st) =~= ws);
    }
}

/// A backslash at the end of a line, outside single quotes and not itself
/// escaped, adds nothing to the tokens.
pub proof fn lemma_trailing_backslash(s: Seq<char>)
    requires
        scan(initial_state(), s).mode == Mode::Plain || scan(initial_state(), s).mode
            == Mode::Double,
    ensures
        tokens_of(s.push('\\')) == tokens_of(s),
{
    let st = scan(initial_state(), s);
    assert(s.push('\\') =~= s + seq!['\\']);
    lemma_scan_concat(initial_state(), s, seq!['\\']);
    lemma_scan_one(st, '\\');
}

} // verus!
