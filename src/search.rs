use vstd::prelude::*;

use crate::shell::Shell;
use crate::text::{chars_of, push_char};
use crate::tokenizer::strings_view;

verus! {

/// The pieces of `s` between colons, in order; `s` without a colon is one
/// piece, and an empty `s` is one empty piece.
pub open spec fn split_colons(s: Seq<char>) -> Seq<Seq<char>>
    decreases s.len(),
{
    if s.len() == 0 {
        seq![Seq::empty()]
    } else {
        let rest = split_colons(s.drop_first());
        if s[0] == ':' {
            seq![Seq::empty()] + rest
        } else {
            rest.update(0, seq![s[0]] + rest[0])
        }
    }
}

/// `ps` with `pre` put before its first piece.
pub open spec fn prefix_first(pre: Seq<char>, ps: Seq<Seq<char>>) -> Seq<Seq<char>> {
    ps.update(0, pre + ps[0])
}

/// The file that directory `dir` would hold for `command`.
pub open spec fn candidate(dir: Seq<char>, command: Seq<char>) -> Seq<char> {
    dir + seq!['/'] + command
}

proof fn lemma_split_nonempty(s: Seq<char>)
    ensures
        split_colons(s).len() >= 1,
    decreases s.len(),
{
    if s.len() > 0 {
        lemma_split_nonempty(s.drop_first());
    }
}

/// The directories of a colon-separated search path.
fn split_path(path_var: &str) -> (r: Vec<String>)
    ensures
        strings_view(r@) == split_colons(path_var@),
{
    let s = chars_of(path_var);
    let n = s.len();
    let mut dirs: Vec<String> = Vec::new();
    let mut cur = String::new();
    let mut i: usize = 0;
    proof {
        assert(s@.subrange(0, n as int) =~= s@);
        lemma_split_nonempty(s@);
        assert(prefix_first(cur@, split_colons(s@)) =~= split_colons(s@));
        assert(strings_view(dirs@) + split_colons(s@) =~= split_colons(s@));
    }
    while i < n
        invariant
            s@ == path_var@,
            n == s.len(),
            i <= n,
            split_colons(s@) == strings_view(dirs@) + prefix_first(
                cur@,
                split_colons(s@.subrange(i as int, n as int)),
            ),
        decreases n - i,
    {
        let ghost rest = s@.subrange(i as int, n as int);
        let ghost next = s@.subrange(i + 1, n as int);
        let ghost before_dirs = strings_view(dirs@);
        let ghost before_cur = cur@;
        proof {
            assert(rest.drop_first() =~= next);
            assert(rest[0] == s@[i as int]);
            lemma_split_nonempty(next);
        }
        if s[i] == ':' {
            dirs.push(cur);
            cur = String::new();
            proof {
                assert(strings_view(dirs@) =~= before_dirs.push(before_cur));
                assert(prefix_first(cur@, split_colons(next)) =~= split_colons(next));
                assert(before_dirs + prefix_first(before_cur, split_colons(rest)) =~= strings_view(
                    dirs@,
                ) + prefix_first(cur@, split_colons(next)));
            }
        } else {
            push_char(&mut cur, s[i]);
            proof {
                let x = split_colons(next);
                assert(split_colons(rest) == x.update(0, seq![rest[0]] + x[0]));
                assert(before_cur + (seq![rest[0]] + x[0]) =~= cur@ + x[0]);
                assert(prefix_first(before_cur, split_colons(rest)) =~= prefix_first(
                    cur@,
                    split_colons(next),
                ));
            }
        }
        i = i + 1;
    }
    let ghost before_dirs = strings_view(dirs@);
    dirs.push(cur);
    proof {
        assert(s@.subrange(n as int, n as int) =~= Seq::<char>::empty());
        assert(strings_view(dirs@) =~= split_colons(s@));
    }
    dirs
}

impl Shell {
    /// The files to try, in order, for `command` on the search path
    /// `path_var`: each colon-separated directory followed by `/command`.
    pub fn search_candidates(path_var: &str, command: &str) -> (r: Vec<String>)
        ensures
            strings_view(r@) == split_colons(path_var@).map_values(
                |d: Seq<char>| candidate(d, command@),
            ),
    {
        let dirs = split_path(path_var);
        let ghost ds = strings_view(dirs@);
        let mut out: Vec<String> = Vec::new();
        let mut k: usize = 0;
        while k < dirs.len()
            invariant
                ds == strings_view(dirs@),
                ds == split_colons(path_var@),
                k <= dirs.len(),
                strings_view(out@) == ds.subrange(0, k as int).map_values(
                    |d: Seq<char>| candidate(d, command@),
                ),
            decreases dirs.len() - k,
        {
            let mut c = dirs[k].clone();
            push_char(&mut c, '/');
            c.append(command);
            proof {
                assert(ds[k as int] == dirs@[k as int]@);
                assert(c@ =~= candidate(ds[k as int], command@));
            }
            let ghost before = strings_view(out@);
            out.push(c);
            proof {
                assert(strings_view(out@) =~= before.push(candidate(ds[k as int], command@)));
                assert(ds.subrange(0, k + 1).map_values(|d: Seq<char>| candidate(d, command@))
                    =~= ds.subrange(0, k as int).map_values(
                    |d: Seq<char>| candidate(d, command@),
                ).push(candidate(ds[k as int], command@)));
            }
            k = k + 1;
        }
        proof {
            assert(ds.subrange(0, ds.len() as int) =~= ds);
        }
        out
    }
}

} // verus!
