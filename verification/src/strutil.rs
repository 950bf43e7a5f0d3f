//! String-vector helpers: the set view of a vector of flag strings, and the
//! executable membership and removal operations against that view.

use vstd::prelude::*;

verus! {

/// Relies on `str`'s `==` operator (`str::eq`): true exactly when the two
/// slices hold the same characters.
#[verifier::external_body]
pub(crate) fn str_eq(a: &str, b: &str) -> (r: bool)
    ensures
        r == (a@ == b@),
{
    a == b
}

/// The set of character sequences a vector of strings holds.
pub open spec fn strset(s: Seq<String>) -> Set<Seq<char>>
    decreases s.len(),
{
    if s.len() == 0 {
        Set::empty()
    } else {
        strset(s.drop_last()).insert(s.last()@)
    }
}

/// No two strings of the vector hold the same characters.
pub open spec fn views_unique(s: Seq<String>) -> bool {
    forall|i: int, j: int| 0 <= i < j < s.len() ==> s[i]@ != s[j]@
}

/// Membership in the set view is membership at some index.
pub proof fn lemma_strset_contains(s: Seq<String>, f: Seq<char>)
    ensures
        strset(s).contains(f) <==> exists|i: int| 0 <= i < s.len() && s[i]@ == f,
    decreases s.len(),
{
    if s.len() > 0 {
        lemma_strset_contains(s.drop_last(), f);
        if s.last()@ == f {
            assert(s[s.len() - 1]@ == f);
        } else if strset(s).contains(f) {
            let i = choose|i: int| 0 <= i < s.drop_last().len() && s.drop_last()[i]@ == f;
            assert(s[i]@ == f);
        } else {
            if exists|i: int| 0 <= i < s.len() && s[i]@ == f {
                let i = choose|i: int| 0 <= i < s.len() && s[i]@ == f;
                assert(s.drop_last()[i]@ == f);
            }
        }
    }
}

/// Appending a string inserts its characters into the set view.
pub proof fn lemma_strset_push(s: Seq<String>, x: String)
    ensures
        strset(s.push(x)) == strset(s).insert(x@),
{
    assert(s.push(x).drop_last() =~= s);
    assert(s.push(x).last() == x);
}

/// The set view is empty exactly when the vector is.
pub proof fn lemma_strset_empty(s: Seq<String>)
    ensures
        strset(s).is_empty() <==> s.len() == 0,
{
    lemma_strset_contains(s, s[0]@);
    if s.len() > 0 {
        assert(strset(s).contains(s[0]@));
    }
}

/// With unique views, removing the entry at `i` removes its characters from
/// the set view.
pub proof fn lemma_strset_remove(s: Seq<String>, i: int)
    requires
        views_unique(s),
        0 <= i < s.len(),
    ensures
        views_unique(s.remove(i)),
        strset(s.remove(i)) == strset(s).remove(s[i]@),
{
    let s2 = s.remove(i);
    assert(views_unique(s2));
    assert forall|f: Seq<char>| strset(s2).contains(f) implies strset(s).remove(s[i]@).contains(
        f,
    ) by {
        lemma_strset_contains(s2, f);
        lemma_strset_contains(s, f);
        let j = choose|j: int| 0 <= j < s2.len() && s2[j]@ == f;
        if j < i {
            assert(s[j]@ == f);
            assert(f != s[i]@);
        } else {
            assert(s[j + 1]@ == f);
            assert(f != s[i]@);
        }
    }
    assert forall|f: Seq<char>| strset(s).remove(s[i]@).contains(f) implies strset(s2).contains(
        f,
    ) by {
        lemma_strset_contains(s2, f);
        lemma_strset_contains(s, f);
        let j = choose|j: int| 0 <= j < s.len() && s[j]@ == f;
        assert(j != i);
        if j < i {
            assert(s2[j]@ == f);
        } else {
            assert(s2[j - 1]@ == f);
        }
    }
    assert(strset(s2) =~= strset(s).remove(s[i]@));
}

/// Reports whether some string of the vector holds the characters of `x`.
pub(crate) fn contains_str(v: &Vec<String>, x: &str) -> (r: bool)
    ensures
        r == strset(v@).contains(x@),
{
    proof {
        lemma_strset_contains(v@, x@);
    }
    let mut i: usize = 0;
    while i < v.len()
        invariant
            0 <= i <= v@.len(),
            forall|j: int| 0 <= j < i ==> v@[j]@ != x@,
        decreases v@.len() - i,
    {
        if str_eq(v[i].as_str(), x) {
            proof {
                lemma_strset_contains(v@, x@);
            }
            return true;
        }
        i += 1;
    }
    proof {
        lemma_strset_contains(v@, x@);
    }
    false
}

/// Removes the string holding the characters of `x`, if one is present.
pub(crate) fn remove_str(v: &mut Vec<String>, x: &str)
    requires
        views_unique(old(v)@),
    ensures
        views_unique(final (v)@),
        strset(final (v)@) == strset(old(v)@).remove(x@),
        final (v)@.len() <= old(v)@.len(),
        forall|f: Seq<char>|
            #[trigger] strset(final (v)@).contains(f) ==> strset(old(v)@).contains(f),
{
    let ghost s0 = v@;
    let mut i: usize = 0;
    while i < v.len()
        invariant
            v@ == s0,
            old(v)@ == s0,
            views_unique(s0),
            0 <= i <= s0.len(),
            forall|j: int| 0 <= j < i ==> s0[j]@ != x@,
        decreases s0.len() - i,
    {
        if str_eq(v[i].as_str(), x) {
            proof {
                lemma_strset_remove(s0, i as int);
                lemma_strset_contains(s0, x@);
            }
            v.remove(i);
            proof {
                assert forall|f: Seq<char>| #[trigger]
                    strset(v@).contains(f) implies strset(s0).contains(f) by {
                    assert(strset(s0).remove(x@).contains(f));
                }
            }
            return ;
        }
        i += 1;
    }
    proof {
        lemma_strset_contains(s0, x@);
        assert(!strset(s0).contains(x@));
        assert(strset(v@) =~= strset(s0).remove(x@));
    }
}

} // verus!
