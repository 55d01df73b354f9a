use vstd::prelude::*;

use crate::builtin::{builtin_named, cd_destination, cd_target, Builtin, Effect, EffectView};
use crate::command::{join_words, option_view, CommandLine, CommandView};
use crate::text::{chars_equal, chars_of, push_char};
use crate::tokenizer::strings_view;

verus! {

/// The interpreter: its registry of builtins, fixed when it is made.
pub struct Shell {
    builtins: Vec<Builtin>,
}

/// What a builtin does with its joined argument. `arg_path` is where the
/// search path finds a program named `arg`, which only `type` reports.
pub open spec fn builtin_effect(
    b: Builtin,
    arg: Seq<char>,
    arg_path: Option<Seq<char>>,
) -> EffectView {
    match b {
        Builtin::Cd => EffectView::ChangeDir(cd_target(arg)),
        Builtin::Echo => EffectView::Print(arg.push('\n')),
        Builtin::Exit => {
            if arg == seq!['0'] {
                EffectView::Exit
            } else {
                EffectView::Print(arg + ": invalid argument\n"@)
            }
        },
        Builtin::Type => {
            if arg.len() == 0 {
                EffectView::Print("type: not enough arguments\n"@)
            } else if builtin_named(arg) is Some {
                EffectView::Print(arg + " is a shellob builtin\n"@)
            } else {
                match arg_path {
                    Some(p) => EffectView::Print(arg + " is "@ + p + "\n"@),
                    None => EffectView::Print(arg + ": not found\n"@),
                }
            }
        },
    }
}

/// What dispatch does with a command line.
#[derive(Clone, Debug, PartialEq, Eq)]
pub enum Action {
    /// Run a builtin on the joined arguments; its printed text goes to
    /// `target` when there is one.
    RunBuiltin { builtin: Builtin, arg: String, target: Option<String> },
    /// Run the program at `path`; its standard output goes to `target` when
    /// there is one.
    RunExternal { path: String, args: Vec<String>, target: Option<String> },
    /// Report that the command is unknown, with this line.
    NotFound { message: String },
}

pub enum ActionView {
    RunBuiltin { builtin: Builtin, arg: Seq<char>, target: Option<Seq<char>> },
    RunExternal { path: Seq<char>, args: Seq<Seq<char>>, target: Option<Seq<char>> },
    NotFound { message: Seq<char> },
}

impl Action {
    pub open spec fn view(&self) -> ActionView {
        match self {
            Action::RunBuiltin { builtin, arg, target } => ActionView::RunBuiltin {
                builtin: *builtin,
                arg: arg@,
                target: option_view(*target),
            },
            Action::RunExternal { path, args, target } => ActionView::RunExternal {
                path: path@,
                args: strings_view(args@),
                target: option_view(*target),
            },
            Action::NotFound { message } => ActionView::NotFound { message: message@ },
        }
    }
}

/// The decision for a command line: a builtin of that name first, then the
/// program that the search path found, else a report that it is unknown.
pub open spec fn plan_of(cmd: CommandView, found: Option<Seq<char>>) -> ActionView {
    match builtin_named(cmd.name) {
        Some(b) => ActionView::RunBuiltin {
            builtin: b,
            arg: join_words(cmd.args),
            target: cmd.target,
        },
        None => match found {
            Some(p) => ActionView::RunExternal { path: p, args: cmd.args, target: cmd.target },
            None => ActionView::NotFound { message: cmd.name + ": command not found"@ },
        },
    }
}

impl Shell {
    /// The registry holds each builtin once, in a fixed order.
    pub closed spec fn wf(&self) -> bool {
        self.builtins@ == seq![Builtin::Cd, Builtin::Echo, Builtin::Exit, Builtin::Type]
    }

    pub fn new() -> (r: Shell)
        ensures
            r.wf(),
    {
        let builtins = vec![Builtin::Cd, Builtin::Echo, Builtin::Exit, Builtin::Type];
        let r = Shell { builtins };
        proof {
            assert(r.builtins@ =~= seq![Builtin::Cd, Builtin::Echo, Builtin::Exit, Builtin::Type]);
        }
        r
    }

    /// The builtin registered under `name`, if any.
    pub fn lookup(&self, name: &str) -> (r: Option<Builtin>)
        requires
            self.wf(),
        ensures
            r == builtin_named(name@),
    {
        let cs = chars_of(name);
        let mut k: usize = 0;
        while k < self.builtins.len()
            invariant
                self.wf(),
                cs@ == name@,
                k <= self.builtins.len(),
                forall|m: int| 0 <= m < k ==> (#[trigger] self.builtins@[m]).spec_name() != name@,
            decreases self.builtins.len() - k,
        {
            let b = self.builtins[k];
            let names = b.name_chars();
            if chars_equal(&names, &cs) {
                proof {
                    lemma_names_distinct();
                }
                return Some(b);
            }
            k = k + 1;
        }
        proof {
            assert(self.builtins@[0].spec_name() != name@);
            assert(self.builtins@[1].spec_name() != name@);
            assert(self.builtins@[2].spec_name() != name@);
            assert(self.builtins@[3].spec_name() != name@);
        }
        None
    }

    /// What a builtin asks of the world when run on `arg`; `arg_path` is
    /// where the search path finds a program named `arg`.
    pub fn run_builtin(&self, b: Builtin, arg: &str, arg_path: Option<String>) -> (r: Effect)
        requires
            self.wf(),
        ensures
            r.view() == builtin_effect(b, arg@, option_view(arg_path)),
    {
        match b {
            Builtin::Cd => Effect::ChangeDir(cd_destination(arg)),
            Builtin::Echo => {
                let mut out = String::from_str(arg);
                push_char(&mut out, '\n');
                Effect::Print(out)
            },
            Builtin::Exit => {
                if arg.unicode_len() == 1 && arg.get_char(0) == '0' {
                    proof {
                        assert(arg@ =~= seq!['0']);
                    }
                    Effect::Exit
                } else {
                    let mut out = String::from_str(arg);
                    out.append(": invalid argument\n");
                    Effect::Print(out)
                }
            },
            Builtin::Type => {
                if arg.unicode_len() == 0 {
                    Effect::Print(String::from_str("type: not enough arguments\n"))
                } else if self.lookup(arg).is_some() {
                    let mut out = String::from_str(arg);
                    out.append(" is a shellob builtin\n");
                    Effect::Print(out)
                } else {
                    let mut out = String::from_str(arg);
                    match arg_path {
                        Some(p) => {
                            out.append(" is ");
                            out.append(p.as_str());
                            out.append("\n");
                        },
                        None => {
                            out.append(": not found\n");
                        },
                    }
                    Effect::Print(out)
                }
            },
        }
    }

    /// Decides what to do with a command line, given where the search path
    /// found a program of its name. A builtin always wins over a program.
    pub fn plan(&self, cmd: &CommandLine, found: Option<String>) -> (r: Action)
        requires
            self.wf(),
        ensures
            r.view() == plan_of(cmd.view(), option_view(found)),
    {
        match self.lookup(cmd.name.as_str()) {
            Some(b) => Action::RunBuiltin {
                builtin: b,
                arg: cmd.joined_args(),
                target: cmd.target.clone(),
            },
            None => match found {
                Some(p) => Action::RunExternal {
                    path: p,
                    args: cmd.args.clone(),
                    target: cmd.target.clone(),
                },
                None => {
                    let mut message = cmd.name.clone();
                    message.append(": command not found");
                    Action::NotFound { message }
                },
            },
        }
    }
}

/// A builtin cannot be shadowed: whatever the search path finds, a command
/// named like a builtin runs that builtin.
pub proof fn lemma_builtin_not_shadowed(
    cmd: CommandView,
    found: Option<Seq<char>>,
    other: Option<Seq<char>>,
)
    requires
        builtin_named(cmd.name) is Some,
    ensures
        plan_of(cmd, found) == plan_of(cmd, other),
        plan_of(cmd, found) matches ActionView::RunBuiltin { builtin, .. } && builtin
            == builtin_named(cmd.name)->0,
{
}

proof fn lemma_names_distinct()
    ensures
        forall|a: Builtin, b: Builtin| a.spec_name() == b.spec_name() ==> a == b,
{
    assert forall|a: Builtin, b: Builtin| a.spec_name() == b.spec_name() implies a == b by {
        if a != b {
            match (a, b) {
                (Builtin::Echo, Builtin::Exit) | (Builtin::Exit, Builtin::Echo) => {
                    assert(a.spec_name()[1] != b.spec_name()[1]);
                },
                _ => {
                    assert(a.spec_name()[0] != b.spec_name()[0] || a.spec_name().len()
                        != b.spec_name().len());
                },
            }
        }
    }
}

} // verus!
