use vstd::prelude::*;

use crate::shell::Shell;
use crate::text::{chars_of, push_char};

verus! {

/// `s` with every occurrence of `pat` replaced by `rep`, found left to
/// right without overlap.
pub open spec fn replace_all(s: Seq<char>, pat: Seq<char>, rep: Seq<char>) -> Seq<char>
    decreases s.len(),
{
    if pat.len() == 0 || s.len() < pat.len() {
        s
    } else if s.subrange(0, pat.len() as int) == pat {
        rep + replace_all(s.subrange(pat.len() as int, s.len() as int), pat, rep)
    } else {
        seq![s[0]] + replace_all(s.drop_first(), pat, rep)
    }
}

/// A name followed by a colon and a space, as error messages begin.
pub open spec fn labelled(name: Seq<char>) -> Seq<char> {
    name + seq![':', ' ']
}

proof fn lemma_replace_step(s: Seq<char>, pat: Seq<char>, rep: Seq<char>)
    requires
        pat.len() > 0,
        s.len() > 0,
        !(s.len() >= pat.len() && s.subrange(0, pat.len() as int) == pat),
    ensures
        replace_all(s, pat, rep) == seq![s[0]] + replace_all(s.drop_first(), pat, rep),
{
    if s.len() < pat.len() {
        assert(seq![s[0]] + s.drop_first() =~= s);
    }
}

/// Whether `pat` occurs in `s` at index `i`.
fn occurs_at(s: &Vec<char>, i: usize, pat: &Vec<char>) -> (r: bool)
    requires
        i + pat.len() <= s.len(),
    ensures
        r == (s@.subrange(i as int, i + pat.len()) == pat@),
{
    let mut k: usize = 0;
    while k < pat.len()
        invariant
            i + pat.len() <= s.len(),
            k <= pat.len(),
            forall|m: int| 0 <= m < k ==> s@[i + m] == pat@[m],
        decreases pat.len() - k,
    {
        if s[i + k] != pat[k] {
            proof {
                assert(s@.subrange(i as int, i + pat.len())[k as int] != pat@[k as int]);
            }
            return false;
        }
        k = k + 1;
    }
    proof {
        assert(s@.subrange(i as int, i + pat.len()) =~= pat@);
    }
    true
}

impl Shell {
    /// The error output of a program run from `path`, as shown to the user:
    /// every `path: ` becomes `command: `, so that the resolved path does
    /// not show.
    pub fn relay_stderr(stderr: &str, path: &str, command: &str) -> (r: String)
        ensures
            r@ == replace_all(stderr@, labelled(path@), labelled(command@)),
    {
        let s = chars_of(stderr);
        let mut pat = chars_of(path);
        pat.push(':');
        pat.push(' ');
        let mut rep = String::from_str(command);
        push_char(&mut rep, ':');
        push_char(&mut rep, ' ');
        proof {
            assert(pat@ =~= labelled(path@));
            assert(rep@ =~= labelled(command@));
        }
        let ghost p = pat@;
        let ghost q = rep@;
        let n = s.len();
        let mut out = String::new();
        let mut i: usize = 0;
        proof {
            assert(s@.subrange(0, n as int) =~= s@);
            assert(out@ + replace_all(s@, p, q) =~= replace_all(s@, p, q));
        }
        while i < n
            invariant
                s@ == stderr@,
                n == s.len(),
                p == pat@,
                q == rep@,
                p.len() > 0,
                i <= n,
                replace_all(s@, p, q) == out@ + replace_all(s@.subrange(i as int, n as int), p, q),
            decreases n - i,
        {
            let ghost rest = s@.subrange(i as int, n as int);
            let ghost before = out@;
            if n - i >= pat.len() && occurs_at(&s, i, &pat) {
                out.append(rep.as_str());
                proof {
                    assert(rest.subrange(0, p.len() as int) =~= s@.subrange(i as int, i + p.len()));
                    assert(rest.subrange(p.len() as int, rest.len() as int) =~= s@.subrange(
                        i + p.len(),
                        n as int,
                    ));
                    assert(before + (q + replace_all(s@.subrange(i + p.len(), n as int), p, q))
                        =~= out@ + replace_all(s@.subrange(i + p.len(), n as int), p, q));
                }
                i = i + pat.len();
            } else {
                push_char(&mut out, s[i]);
                proof {
                    if rest.len() >= p.len() {
                        assert(rest.subrange(0, p.len() as int) =~= s@.subrange(
                            i as int,
                            i + p.len(),
                        ));
                    }
                    lemma_replace_step(rest, p, q);
                    assert(rest.drop_first() =~= s@.subrange(i + 1, n as int));
                    assert(before + (seq![rest[0]] + replace_all(rest.drop_first(), p, q))
                        =~= out@ + replace_all(rest.drop_first(), p, q));
                }
                i = i + 1;
            }
        }
        proof {
            assert(s@.subrange(n as int, n as int) =~= Seq::<char>::empty());
            assert(out@ + Seq::<char>::empty() =~= out@);
        }
        out
    }
}

} // verus!
