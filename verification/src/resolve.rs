//! Channel resolution: expanding the configured name patterns, literal or
//! glob, against the live channel list the system exposes.
use vstd::prelude::*;

use crate::text::{chars_of, contains_string, strs_v};

verus! {

broadcast use
    vstd::std_specs::vec::group_vec_axioms,
    vstd::seq_lib::group_filter_ensures,
    vstd::seq_lib::lemma_seq_contains_after_push,
;

/// Whether a glob pattern matches a name, lexically and case-sensitively:
/// `*` matches any stretch of characters, `?` any single character, and
/// every other character exactly itself. There is no further syntax:
/// `[`, `{` and `!` stand for themselves.
pub open spec fn glob_matches(pattern: Seq<char>, name: Seq<char>) -> bool
    decreases pattern.len() + name.len(),
{
    if pattern.len() == 0 {
        name.len() == 0
    } else if pattern[0] == '*' {
        glob_matches(pattern.drop_first(), name) || (name.len() > 0 && glob_matches(
            pattern,
            name.drop_first(),
        ))
    } else {
        name.len() > 0 && (pattern[0] == '?' || pattern[0] == name[0]) && glob_matches(
            pattern.drop_first(),
            name.drop_first(),
        )
    }
}

fn glob_match_at(p: &Vec<char>, s: &Vec<char>, pi: usize, si: usize) -> (r: bool)
    requires
        pi <= p@.len(),
        si <= s@.len(),
    ensures
        r == glob_matches(p@.skip(pi as int), s@.skip(si as int)),
    decreases p@.len() - pi + s@.len() - si,
{
    let ghost pp = p@.skip(pi as int);
    let ghost ss = s@.skip(si as int);
    if pi == p.len() {
        si == s.len()
    } else if p[pi] == '*' {
        proof {
            assert(pp[0] == p@[pi as int]);
            assert(pp.drop_first() =~= p@.skip(pi + 1));
        }
        if glob_match_at(p, s, pi + 1, si) {
            true
        } else if si < s.len() {
            proof {
                assert(ss.drop_first() =~= s@.skip(si + 1));
            }
            glob_match_at(p, s, pi, si + 1)
        } else {
            false
        }
    } else if si == s.len() {
        proof {
            assert(pp[0] == p@[pi as int]);
        }
        false
    } else if p[pi] == '?' || p[pi] == s[si] {
        proof {
            assert(pp[0] == p@[pi as int]);
            assert(ss[0] == s@[si as int]);
            assert(pp.drop_first() =~= p@.skip(pi + 1));
            assert(ss.drop_first() =~= s@.skip(si + 1));
        }
        glob_match_at(p, s, pi + 1, si + 1)
    } else {
        proof {
            assert(pp[0] == p@[pi as int]);
            assert(ss[0] == s@[si as int]);
        }
        false
    }
}

/// Matches one glob pattern against one name.
pub fn glob_match_str(pattern: &str, name: &str) -> (r: bool)
    ensures
        r == glob_matches(pattern@, name@),
{
    let pc = chars_of(pattern);
    let sc = chars_of(name);
    proof {
        assert(pc@.skip(0) =~= pattern@);
        assert(sc@.skip(0) =~= name@);
    }
    glob_match_at(&pc, &sc, 0, 0)
}

/// A pattern holding `*` or `?` is treated as a glob.
pub open spec fn is_glob_v(p: Seq<char>) -> bool {
    p.contains('*') || p.contains('?')
}

/// Whether a pattern is a glob rather than a literal channel name.
pub fn is_glob_pattern(p: &str) -> (r: bool)
    ensures
        r == is_glob_v(p@),
{
    let cs = chars_of(p);
    let mut i: usize = 0;
    while i < cs.len()
        invariant
            cs@ == p@,
            i <= p@.len(),
            forall|j: int| 0 <= j < i ==> p@[j] != '*' && p@[j] != '?',
        decreases p@.len() - i,
    {
        let c = cs[i];
        if c == '*' || c == '?' {
            proof {
                assert(p@[i as int] == '*' || p@[i as int] == '?');
            }
            return true;
        }
        i = i + 1;
    }
    false
}

/// Whether one configured pattern selects a channel name: a glob selects
/// what it matches, a literal selects exactly itself.
pub open spec fn pattern_selects(p: Seq<char>, name: Seq<char>) -> bool {
    if is_glob_v(p) {
        glob_matches(p, name)
    } else {
        p == name
    }
}

proof fn lemma_filter_take_step<A>(s: Seq<A>, pred: spec_fn(A) -> bool, i: int)
    requires
        0 <= i < s.len(),
    ensures
        s.take(i + 1).filter(pred) == s.take(i).filter(pred) + if pred(s[i]) {
            seq![s[i]]
        } else {
            Seq::<A>::empty()
        },
{
    reveal(Seq::filter);
    assert(s.take(i + 1).drop_last() =~= s.take(i));
    assert(s.take(i + 1).last() == s[i]);
    if pred(s[i]) {
        assert(s.take(i).filter(pred).push(s[i]) =~= s.take(i).filter(pred) + seq![s[i]]);
    } else {
        assert(s.take(i).filter(pred) + Seq::<A>::empty() =~= s.take(i).filter(pred));
    }
}

/// Expands one pattern against the live channel list: a glob yields every
/// live name it matches, in order; a literal yields itself exactly when it
/// is present, and nothing otherwise.
pub fn resolve_pattern(pattern: &String, available: &Vec<String>) -> (r: Vec<String>)
    ensures
        is_glob_v(pattern@) ==> strs_v(r@) == strs_v(available@).filter(
            |n: Seq<char>| glob_matches(pattern@, n),
        ),
        !is_glob_v(pattern@) ==> strs_v(r@) == if strs_v(available@).contains(pattern@) {
            seq![pattern@]
        } else {
            Seq::<Seq<char>>::empty()
        },
{
    let ghost av = strs_v(available@);
    if is_glob_pattern(pattern.as_str()) {
        let ghost pred = |n: Seq<char>| glob_matches(pattern@, n);
        let mut r: Vec<String> = Vec::new();
        let mut i: usize = 0;
        proof {
            assert(av.take(0).filter(pred) =~= Seq::<Seq<char>>::empty());
            assert(strs_v(r@) =~= Seq::<Seq<char>>::empty());
        }
        while i < available.len()
            invariant
                i <= available@.len(),
                av == strs_v(available@),
                strs_v(r@) == av.take(i as int).filter(pred),
                pred == (|n: Seq<char>| glob_matches(pattern@, n)),
            decreases available@.len() - i,
        {
            let name = &available[i];
            proof {
                lemma_filter_take_step(av, pred, i as int);
                assert(av[i as int] == name@);
            }
            if glob_match_str(pattern.as_str(), name.as_str()) {
                let ghost prev = r@;
                r.push(name.clone());
                proof {
                    assert(strs_v(r@) =~= strs_v(prev) + seq![name@]);
                }
            }
            i = i + 1;
        }
        proof {
            assert(av.take(av.len() as int) =~= av);
        }
        r
    } else {
        if contains_string(available, pattern) {
            let r = vec![pattern.clone()];
            proof {
                assert(strs_v(r@) =~= seq![pattern@]);
            }
            r
        } else {
            let r: Vec<String> = Vec::new();
            proof {
                assert(strs_v(r@) =~= Seq::<Seq<char>>::empty());
            }
            r
        }
    }
}

/// Whether some configured pattern selects the live channel `n`.
pub open spec fn selected(pats: Seq<Seq<char>>, avail: Seq<Seq<char>>, n: Seq<char>) -> bool {
    avail.contains(n) && exists|i: int| 0 <= i < pats.len() && pattern_selects(pats[i], n)
}

/// Resolves the configured pattern list against the live channel list:
/// the result holds, once each, exactly the live channels that some
/// pattern selects.
pub fn resolve_channels(patterns: &Vec<String>, available: &Vec<String>) -> (r: Vec<String>)
    ensures
        forall|n: Seq<char>| #[trigger]
            strs_v(r@).contains(n) == selected(strs_v(patterns@), strs_v(available@), n),
        forall|i: int, j: int| 0 <= i < j < r@.len() ==> strs_v(r@)[i] != strs_v(r@)[j],
{
    let ghost pats = strs_v(patterns@);
    let ghost av = strs_v(available@);
    let mut r: Vec<String> = Vec::new();
    let mut p: usize = 0;
    while p < patterns.len()
        invariant
            p <= patterns@.len(),
            pats == strs_v(patterns@),
            av == strs_v(available@),
            forall|n: Seq<char>| #[trigger]
                strs_v(r@).contains(n) == selected(pats.take(p as int), av, n),
            forall|i: int, j: int| 0 <= i < j < r@.len() ==> strs_v(r@)[i] != strs_v(r@)[j],
        decreases patterns@.len() - p,
    {
        let pattern = &patterns[p];
        let m = resolve_pattern(pattern, available);
        proof {
            assert(pattern@ == pats[p as int]);
        }
        let mut t: usize = 0;
        while t < m.len()
            invariant
                t <= m@.len(),
                pats == strs_v(patterns@),
                av == strs_v(available@),
                p < pats.len(),
                pattern@ == pats[p as int],
                is_glob_v(pattern@) ==> strs_v(m@) == av.filter(
                    |n: Seq<char>| glob_matches(pattern@, n),
                ),
                !is_glob_v(pattern@) ==> strs_v(m@) == if av.contains(pattern@) {
                    seq![pattern@]
                } else {
                    Seq::<Seq<char>>::empty()
                },
                forall|n: Seq<char>| #[trigger]
                    strs_v(r@).contains(n) == (selected(pats.take(p as int), av, n) || strs_v(
                        m@,
                    ).take(t as int).contains(n)),
                forall|i: int, j: int| 0 <= i < j < r@.len() ==> strs_v(r@)[i] != strs_v(r@)[j],
            decreases m@.len() - t,
        {
            let e = &m[t];
            proof {
                assert(strs_v(m@)[t as int] == e@);
                assert(strs_v(m@).take(t + 1) =~= strs_v(m@).take(t as int).push(e@));
            }
            if !contains_string(&r, e) {
                let ghost prev = r@;
                r.push(e.clone());
                proof {
                    assert(strs_v(r@) =~= strs_v(prev).push(e@));
                    assert(strs_v(m@).contains(e@));
                    assert forall|n: Seq<char>| #[trigger] strs_v(r@).contains(n) == (selected(
                        pats.take(p as int),
                        av,
                        n,
                    ) || strs_v(m@).take(t + 1).contains(n)) by {
                        assert(strs_v(r@).contains(n) == (strs_v(prev).contains(n) || n == e@));
                    }
                }
            } else {
                proof {
                    assert forall|n: Seq<char>| #[trigger] strs_v(r@).contains(n) == (selected(
                        pats.take(p as int),
                        av,
                        n,
                    ) || strs_v(m@).take(t + 1).contains(n)) by {
                        if n == e@ {
                            assert(strs_v(r@).contains(e@));
                        }
                    }
                }
            }
            t = t + 1;
        }
        proof {
            assert(strs_v(m@).take(m@.len() as int) =~= strs_v(m@));
            assert(pats.take(p + 1).drop_last() =~= pats.take(p as int));
            assert forall|n: Seq<char>| #[trigger] strs_v(r@).contains(n) == selected(
                pats.take(p + 1),
                av,
                n,
            ) by {
                lemma_pattern_membership(pats, av, p as int, n, strs_v(m@));
                assert(strs_v(r@).contains(n) == (selected(pats.take(p as int), av, n) || strs_v(
                    m@,
                ).contains(n)));
            }
        }
        p = p + 1;
    }
    proof {
        assert(pats.take(pats.len() as int) =~= pats);
    }
    r
}

proof fn lemma_pattern_membership(
    pats: Seq<Seq<char>>,
    av: Seq<Seq<char>>,
    p: int,
    n: Seq<char>,
    m: Seq<Seq<char>>,
)
    requires
        0 <= p < pats.len(),
        is_glob_v(pats[p]) ==> m == av.filter(|x: Seq<char>| glob_matches(pats[p], x)),
        !is_glob_v(pats[p]) ==> m == if av.contains(pats[p]) {
            seq![pats[p]]
        } else {
            Seq::<Seq<char>>::empty()
        },
    ensures
        (selected(pats.take(p), av, n) || m.contains(n)) == selected(pats.take(p + 1), av, n),
{
    let pat = pats[p];
    // what the expansion of one pattern holds
    if is_glob_v(pat) {
        let pred = |x: Seq<char>| glob_matches(pat, x);
        if m.contains(n) {
            av.lemma_filter_contains_rev(pred, n);
            let k = choose|k: int| 0 <= k < m.len() && m[k] == n;
            assert(pred(m[k]));
        }
        if av.contains(n) && pred(n) {
            let k = choose|k: int| 0 <= k < av.len() && av[k] == n;
            av.lemma_filter_contains(pred, k);
        }
        assert(m.contains(n) == (av.contains(n) && pattern_selects(pat, n)));
    } else {
        assert(m.contains(n) == (av.contains(n) && pattern_selects(pat, n)));
    }
    // one more pattern selects exactly its own expansion in addition
    assert(pats.take(p + 1).drop_last() =~= pats.take(p));
    if selected(pats.take(p), av, n) {
        let i = choose|i: int|
            0 <= i < pats.take(p).len() && #[trigger] pattern_selects(pats.take(p)[i], n);
        assert(pattern_selects(pats.take(p + 1)[i], n));
    }
    if m.contains(n) {
        assert(pattern_selects(pats.take(p + 1)[p], n));
    }
    if selected(pats.take(p + 1), av, n) {
        let i = choose|i: int|
            0 <= i < pats.take(p + 1).len() && #[trigger] pattern_selects(pats.take(p + 1)[i], n);
        if i < p {
            assert(pattern_selects(pats.take(p)[i], n));
        }
    }
}

/// The reasons a run is rejected before any subscription is attempted.
#[derive(Debug, Clone, Copy, PartialEq, Eq)]
pub enum RunError {
    NoChannels,
}

impl RunError {
    /// The operator-facing description of the rejection.
    pub fn message(&self) -> (m: String)
        ensures
            m@ == "no valid channels to subscribe to"@,
    {
        String::from_str("no valid channels to subscribe to")
    }
}

/// Plans a run: resolves the configured patterns and rejects the run when
/// no live channel is selected, before any subscription attempt.
pub fn plan_run(patterns: &Vec<String>, available: &Vec<String>) -> (r: Result<
    Vec<String>,
    RunError,
>)
    ensures
        (r is Err) == (forall|n: Seq<char>|
            !selected(strs_v(patterns@), strs_v(available@), n)),
        r matches Ok(v) ==> (forall|n: Seq<char>| #[trigger]
            strs_v(v@).contains(n) == selected(strs_v(patterns@), strs_v(available@), n))
            && (forall|i: int, j: int| 0 <= i < j < v@.len() ==> strs_v(v@)[i] != strs_v(v@)[j])
            && v@.len() > 0,
{
    let v = resolve_channels(patterns, available);
    if v.len() == 0 {
        proof {
            assert forall|n: Seq<char>| !selected(strs_v(patterns@), strs_v(available@), n) by {
                assert(!strs_v(v@).contains(n));
            }
        }
        Err(RunError::NoChannels)
    } else {
        proof {
            let n0 = strs_v(v@)[0];
            assert(strs_v(v@).contains(n0));
        }
        Ok(v)
    }
}

} // verus!
