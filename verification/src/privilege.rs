//! The escalation request: how the argument string for the elevated
//! relaunch is assembled from the current arguments.
use vstd::prelude::*;

use crate::text::{chars_of, string_from_chars, strs_v};

verus! {

broadcast use vstd::std_specs::vec::group_vec_axioms;

/// One argument as it stands on the relaunch command line: wrapped in
/// quotes when it holds a space, bare otherwise.
pub open spec fn quoted_arg_v(a: Seq<char>) -> Seq<char> {
    if a.contains(' ') {
        seq!['"'] + a + seq!['"']
    } else {
        a
    }
}

/// The relaunch argument string: the arguments quoted as above, a single
/// space before each one that follows a non-empty prefix.
pub open spec fn joined_args_v(args: Seq<Seq<char>>) -> Seq<char>
    decreases args.len(),
{
    if args.len() == 0 {
        Seq::empty()
    } else {
        let pre = joined_args_v(args.drop_last());
        pre + (if pre.len() > 0 {
            seq![' ']
        } else {
            Seq::empty()
        }) + quoted_arg_v(args.last())
    }
}

/// Whether a string holds a space.
fn has_space(s: &str) -> (r: bool)
    ensures
        r == s@.contains(' '),
{
    let cs = chars_of(s);
    let mut i: usize = 0;
    while i < cs.len()
        invariant
            cs@ == s@,
            i <= s@.len(),
            forall|j: int| 0 <= j < i ==> s@[j] != ' ',
        decreases s@.len() - i,
    {
        if cs[i] == ' ' {
            proof {
                assert(s@[i as int] == ' ');
            }
            return true;
        }
        i = i + 1;
    }
    false
}

proof fn lemma_joined_args_step(args: Seq<Seq<char>>, i: int)
    requires
        0 <= i < args.len(),
    ensures
        joined_args_v(args.take(i + 1)) == joined_args_v(args.take(i)) + (if joined_args_v(
            args.take(i),
        ).len() > 0 {
            seq![' ']
        } else {
            Seq::<char>::empty()
        }) + quoted_arg_v(args[i]),
{
    assert(args.take(i + 1).drop_last() =~= args.take(i));
    assert(args.take(i + 1).last() == args[i]);
}

/// Builds the argument string handed to the elevated relaunch.
pub fn join_args(args: &Vec<String>) -> (r: String)
    ensures
        r@ == joined_args_v(strs_v(args@)),
{
    let ghost av = strs_v(args@);
    let mut out: Vec<char> = Vec::new();
    let mut i: usize = 0;
    proof {
        assert(joined_args_v(av.take(0)) =~= Seq::<char>::empty());
    }
    while i < args.len()
        invariant
            i <= args@.len(),
            av == strs_v(args@),
            out@ == joined_args_v(av.take(i as int)),
        decreases args@.len() - i,
    {
        let a = &args[i];
        proof {
            lemma_joined_args_step(av, i as int);
            assert(av[i as int] == a@);
        }
        if out.len() > 0 {
            out.push(' ');
        }
        if has_space(a.as_str()) {
            out.push('"');
            let mut cs = chars_of(a.as_str());
            out.append(&mut cs);
            out.push('"');
            proof {
                assert(out@ =~= joined_args_v(av.take(i + 1)));
            }
        } else {
            let mut cs = chars_of(a.as_str());
            out.append(&mut cs);
            proof {
                assert(out@ =~= joined_args_v(av.take(i + 1)));
            }
        }
        i = i + 1;
    }
    proof {
        assert(av.take(av.len() as int) =~= av);
    }
    string_from_chars(&out)
}

} // verus!
