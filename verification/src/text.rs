//! Small verified helpers over strings and character vectors that the
//! rest of the library shares.
use vstd::prelude::*;

verus! {

broadcast use vstd::std_specs::vec::group_vec_axioms;

/// Views of a sequence of strings, in order.
pub open spec fn strs_v(ks: Seq<String>) -> Seq<Seq<char>> {
    Seq::new(
        ks.len(),
        |i: int|
            if 0 <= i < ks.len() {
                ks[i]@
            } else {
                Seq::empty()
            },
    )
}

/// Whether two string slices hold the same characters.
pub fn str_eq(a: &str, b: &str) -> (r: bool)
    ensures
        r == (a@ == b@),
{
    let ao: String = a.to_owned();
    let bo: String = b.to_owned();
    ao == bo
}

/// Whether a list of strings holds one equal to `s`.
pub fn contains_string(ks: &Vec<String>, s: &String) -> (r: bool)
    ensures
        r == strs_v(ks@).contains(s@),
{
    let mut i: usize = 0;
    while i < ks.len()
        invariant
            i <= ks@.len(),
            forall|j: int| 0 <= j < i ==> strs_v(ks@)[j] != s@,
        decreases ks@.len() - i,
    {
        if str_eq(ks[i].as_str(), s.as_str()) {
            assert(strs_v(ks@)[i as int] == s@);
            return true;
        }
        i = i + 1;
    }
    false
}

/// The characters of a string slice, in order.
pub fn chars_of(s: &str) -> (r: Vec<char>)
    ensures
        r@ == s@,
{
    let n = s.unicode_len();
    let mut r: Vec<char> = Vec::new();
    let mut i: usize = 0;
    while i < n
        invariant
            n == s@.len(),
            i <= n,
            r@ == s@.take(i as int),
        decreases n - i,
    {
        let c = s.get_char(i);
        r.push(c);
        proof {
            assert(r@ =~= s@.take(i + 1));
        }
        i = i + 1;
    }
    proof {
        assert(s@.take(n as int) =~= s@);
    }
    r
}

/// Relies on std's `FromIterator<char> for String`: collecting characters
/// in order yields the string of exactly those characters.
#[verifier::external_body]
pub fn string_from_chars(cs: &Vec<char>) -> (r: String)
    ensures
        r@ == cs@,
{
    cs.iter().collect()
}

/// An attribute's field key: the attribute name prefixed with '@'.
pub open spec fn at_key_v(name: Seq<char>) -> Seq<char> {
    seq!['@'] + name
}

/// Builds the '@'-prefixed field key for an attribute name.
pub fn at_key(name: &str) -> (k: String)
    ensures
        k@ == at_key_v(name@),
{
    let mut k = String::from_str("@");
    k.append(name);
    proof {
        reveal_strlit("@");
        assert(k@ =~= at_key_v(name@));
    }
    k
}

} // verus!
