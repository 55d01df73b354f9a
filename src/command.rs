use vstd::prelude::*;

use crate::text::push_char;
use crate::tokenizer::strings_view;

verus! {

/// `>` or `1>`: send standard output to the file named by the next token.
pub open spec fn is_redirect_op(t: Seq<char>) -> bool {
    t == seq!['>'] || t == seq!['1', '>']
}

/// The index of the first redirection operator at or after `i`, or the
/// length of `ts` when there is none.
pub open spec fn first_op_from(ts: Seq<Seq<char>>, i: int) -> int
    decreases ts.len() - i,
{
    if i >= ts.len() {
        ts.len() as int
    } else if is_redirect_op(ts[i]) {
        i
    } else {
        first_op_from(ts, i + 1)
    }
}

pub open spec fn first_op(ts: Seq<Seq<char>>) -> int {
    first_op_from(ts, 0)
}

/// A command line as values: the command name, its arguments, and the file
/// that standard output goes to, if any.
pub struct CommandView {
    pub name: Seq<char>,
    pub args: Seq<Seq<char>>,
    pub target: Option<Seq<char>>,
}

/// What a non-empty token sequence means: the first token names the command;
/// the first redirection operator that has a token after it cuts the
/// arguments short and names the target; a redirection operator with nothing
/// after it is an ordinary argument.
pub open spec fn command_of(ts: Seq<Seq<char>>) -> CommandView {
    let j = first_op(ts);
    if j + 1 < ts.len() {
        CommandView {
            name: ts[0],
            args: ts.subrange(1, if j >= 1 { j } else { 1 }),
            target: Some(ts[j + 1]),
        }
    } else {
        CommandView { name: ts[0], args: ts.subrange(1, ts.len() as int), target: None }
    }
}

/// The words joined with single spaces.
pub open spec fn join_words(ws: Seq<Seq<char>>) -> Seq<char>
    decreases ws.len(),
{
    if ws.len() == 0 {
        Seq::empty()
    } else if ws.len() == 1 {
        ws[0]
    } else {
        join_words(ws.drop_last()) + seq![' '] + ws.last()
    }
}

pub open spec fn option_view(o: Option<String>) -> Option<Seq<char>> {
    match o {
        Some(s) => Some(s@),
        None => None,
    }
}

/// A command line: the command name, its arguments, and an optional file
/// for standard output.
#[derive(Clone, Debug, PartialEq, Eq)]
pub struct CommandLine {
    pub name: String,
    pub args: Vec<String>,
    pub target: Option<String>,
}

impl CommandLine {
    pub open spec fn view(&self) -> CommandView {
        CommandView {
            name: self.name@,
            args: strings_view(self.args@),
            target: option_view(self.target),
        }
    }

    /// Splits tokens into command, arguments and redirection target;
    /// `None` for an empty token sequence.
    pub fn from_tokens(tokens: &Vec<String>) -> (r: Option<CommandLine>)
        ensures
            r is None <==> tokens.len() == 0,
            r matches Some(cl) ==> cl.view() == command_of(strings_view(tokens@)),
    {
        if tokens.len() == 0 {
            return None;
        }
        let ghost ts = strings_view(tokens@);
        let mut i: usize = 0;
        while i < tokens.len() && !is_operator(&tokens[i])
            invariant
                ts == strings_view(tokens@),
                i <= tokens.len(),
                first_op(ts) == first_op_from(ts, i as int),
            decreases tokens.len() - i,
        {
            proof {
                assert(ts[i as int] == tokens@[i as int]@);
            }
            i = i + 1;
        }
        proof {
            if i < tokens.len() {
                assert(ts[i as int] == tokens@[i as int]@);
            }
            assert(first_op(ts) == i as int);
        }
        let mut end: usize = tokens.len();
        let mut target: Option<String> = None;
        if tokens.len() - i > 1 {
            end = if i >= 1 { i } else { 1 };
            target = Some(tokens[i + 1].clone());
        }
        let mut args: Vec<String> = Vec::new();
        let mut k: usize = 1;
        while k < end
            invariant
                ts == strings_view(tokens@),
                1 <= k <= end <= tokens.len(),
                strings_view(args@) == ts.subrange(1, k as int),
            decreases end - k,
        {
            let ghost prev = args@;
            args.push(tokens[k].clone());
            proof {
                assert(ts[k as int] == tokens@[k as int]@);
                assert(args@ == prev.push(tokens@[k as int]));
                assert(strings_view(args@) =~= strings_view(prev).push(ts[k as int]));
                assert(ts.subrange(1, k + 1) =~= ts.subrange(1, k as int).push(ts[k as int]));
            }
            k = k + 1;
        }
        let cl = CommandLine { name: tokens[0].clone(), args, target };
        proof {
            assert(ts.subrange(1, 1) =~= Seq::<Seq<char>>::empty());
        }
        Some(cl)
    }

    /// The arguments joined with single spaces: what a builtin receives.
    pub fn joined_args(&self) -> (r: String)
        ensures
            r@ == join_words(self.view().args),
    {
        let ghost ws = strings_view(self.args@);
        let mut out = String::new();
        let mut k: usize = 0;
        while k < self.args.len()
            invariant
                ws == strings_view(self.args@),
                k <= self.args.len(),
                out@ == join_words(ws.subrange(0, k as int)),
            decreases self.args.len() - k,
        {
            if k > 0 {
                push_char(&mut out, ' ');
            }
            out.append(self.args[k].as_str());
            proof {
                let pre = ws.subrange(0, k + 1);
                assert(pre.drop_last() =~= ws.subrange(0, k as int));
                if k == 0 {
                    assert(out@ =~= pre[0]);
                }
            }
            k = k + 1;
        }
        proof {
            assert(ws.subrange(0, ws.len() as int) =~= ws);
        }
        out
    }
}

/// Whether a token is a redirection operator.
fn is_operator(t: &String) -> (r: bool)
    ensures
        r == is_redirect_op(t@),
{
    let s = t.as_str();
    let n = s.unicode_len();
    if n == 1 {
        let r = s.get_char(0) == '>';
        proof {
            if r {
                assert(t@ =~= seq!['>']);
            }
        }
        r
    } else if n == 2 {
        let r = s.get_char(0) == '1' && s.get_char(1) == '>';
        proof {
            if r {
                assert(t@ =~= seq!['1', '>']);
            }
        }
        r
    } else {
        false
    }
}

/// An operator with nothing after it, and no operator before it, leaves
/// the command exactly as if there were no redirection: every token after
/// the first is an argument and there is no target.
pub proof fn lemma_dangling_operator(ts: Seq<Seq<char>>)
    requires
        ts.len() >= 2,
        is_redirect_op(ts.last()),
        forall|k: int| 0 <= k < ts.len() - 1 ==> !is_redirect_op(#[trigger] ts[k]),
    ensures
        command_of(ts) == (CommandView {
            name: ts[0],
            args: ts.drop_first(),
            target: None,
        }),
{
    lemma_first_op_from(ts, 0);
    assert(ts.subrange(1, ts.len() as int) =~= ts.drop_first());
}

proof fn lemma_first_op_from(ts: Seq<Seq<char>>, i: int)
    requires
        0 <= i <= ts.len(),
        ts.len() >= 1,
        is_redirect_op(ts.last()),
        forall|k: int| 0 <= k < ts.len() - 1 ==> !is_redirect_op(#[trigger] ts[k]),
    ensures
        first_op_from(ts, i) == ts.len() - 1 || i == ts.len(),
    decreases ts.len() - i,
{
    if i < ts.len() && !is_redirect_op(ts[i]) {
        lemma_first_op_from(ts, i + 1);
    }
}

} // verus!
