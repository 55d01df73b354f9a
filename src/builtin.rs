use vstd::prelude::*;

use crate::text::{chars_of, is_unicode_white_space, is_whitespace, push_char};

verus! {

/// A command carried out inside the interpreter.
#[derive(Clone, Copy, Debug, PartialEq, Eq, Structural)]
pub enum Builtin {
    Cd,
    Echo,
    Exit,
    Type,
}

impl Builtin {
    /// The name that the user types for it.
    pub open spec fn spec_name(self) -> Seq<char> {
        match self {
            Builtin::Cd => seq!['c', 'd'],
            Builtin::Echo => seq!['e', 'c', 'h', 'o'],
            Builtin::Exit => seq!['e', 'x', 'i', 't'],
            Builtin::Type => seq!['t', 'y', 'p', 'e'],
        }
    }

    /// The characters of its name.
    pub fn name_chars(self) -> (r: Vec<char>)
        ensures
            r@ == self.spec_name(),
    {
        let r = match self {
            Builtin::Cd => vec!['c', 'd'],
            Builtin::Echo => vec!['e', 'c', 'h', 'o'],
            Builtin::Exit => vec!['e', 'x', 'i', 't'],
            Builtin::Type => vec!['t', 'y', 'p', 'e'],
        };
        proof {
            assert(r@ =~= self.spec_name());
        }
        r
    }
}

/// The builtin registered under a name: exact, case-sensitive match.
pub open spec fn builtin_named(name: Seq<char>) -> Option<Builtin> {
    if name == Builtin::Cd.spec_name() {
        Some(Builtin::Cd)
    } else if name == Builtin::Echo.spec_name() {
        Some(Builtin::Echo)
    } else if name == Builtin::Exit.spec_name() {
        Some(Builtin::Exit)
    } else if name == Builtin::Type.spec_name() {
        Some(Builtin::Type)
    } else {
        None
    }
}

/// What a builtin asks of the world.
#[derive(Clone, Debug, PartialEq, Eq)]
pub enum Effect {
    /// Write this text to standard output (or to the redirection target).
    Print(String),
    /// End the interpreter with status zero.
    Exit,
    /// Change the working directory to this path.
    ChangeDir(String),
}

pub enum EffectView {
    Print(Seq<char>),
    Exit,
    ChangeDir(Seq<char>),
}

impl Effect {
    pub open spec fn view(&self) -> EffectView {
        match self {
            Effect::Print(s) => EffectView::Print(s@),
            Effect::Exit => EffectView::Exit,
            Effect::ChangeDir(s) => EffectView::ChangeDir(s@),
        }
    }
}

/// `s` without its leading whitespace.
pub open spec fn skip_white(s: Seq<char>) -> Seq<char>
    decreases s.len(),
{
    if s.len() > 0 && is_unicode_white_space(s[0]) {
        skip_white(s.drop_first())
    } else {
        s
    }
}

/// The characters of `s` before its first whitespace.
pub open spec fn leading_word(s: Seq<char>) -> Seq<char>
    decreases s.len(),
{
    if s.len() > 0 && !is_unicode_white_space(s[0]) {
        seq![s[0]] + leading_word(s.drop_first())
    } else {
        Seq::empty()
    }
}

/// Where `cd` goes: the first whitespace-separated word of its argument,
/// or `/` when there is none.
pub open spec fn cd_target(arg: Seq<char>) -> Seq<char> {
    let w = leading_word(skip_white(arg));
    if w.len() == 0 {
        seq!['/']
    } else {
        w
    }
}

/// The directory that `cd` changes to for the argument `arg`.
pub fn cd_destination(arg: &str) -> (r: String)
    ensures
        r@ == cd_target(arg@),
{
    let chars = chars_of(arg);
    let n = chars.len();
    let mut i: usize = 0;
    proof {
        assert(chars@.subrange(0, n as int) =~= chars@);
    }
    while i < n && is_whitespace(chars[i])
        invariant
            chars@ == arg@,
            n == chars.len(),
            i <= n,
            skip_white(arg@) == skip_white(chars@.subrange(i as int, n as int)),
        decreases n - i,
    {
        proof {
            assert(chars@.subrange(i as int, n as int).drop_first() =~= chars@.subrange(
                i + 1,
                n as int,
            ));
        }
        i = i + 1;
    }
    let ghost rest = chars@.subrange(i as int, n as int);
    proof {
        assert(skip_white(arg@) == rest);
        assert(rest.subrange(0, rest.len() as int) =~= rest);
    }
    let mut word = String::new();
    let mut j: usize = i;
    while j < n && !is_whitespace(chars[j])
        invariant
            chars@ == arg@,
            n == chars.len(),
            i <= j <= n,
            rest == chars@.subrange(i as int, n as int),
            leading_word(rest) == word@ + leading_word(chars@.subrange(j as int, n as int)),
        decreases n - j,
    {
        let ghost tail = chars@.subrange(j as int, n as int);
        let ghost before = word@;
        push_char(&mut word, chars[j]);
        proof {
            let next = chars@.subrange(j + 1, n as int);
            assert(tail.drop_first() =~= next);
            assert(tail[0] == chars@[j as int]);
            assert(leading_word(tail) == seq![chars@[j as int]] + leading_word(next));
            assert(before + (seq![chars@[j as int]] + leading_word(next)) =~= word@ + leading_word(
                next,
            ));
        }
        j = j + 1;
    }
    proof {
        let tail = chars@.subrange(j as int, n as int);
        if j < n {
            assert(tail[0] == chars@[j as int]);
        }
        assert(leading_word(tail) =~= Seq::<char>::empty());
        assert(word@ + leading_word(tail) =~= word@);
        if j == i {
            assert(word@ =~= Seq::<char>::empty());
        }
    }
    if j == i {
        let mut root = String::new();
        push_char(&mut root, '/');
        proof {
            assert(root@ =~= seq!['/']);
        }
        root
    } else {
        word
    }
}

} // verus!
