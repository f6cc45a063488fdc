use vstd::prelude::*;

verus! {

/// The first present entry of a sequence of check results: the error that
/// a sequence of checks run in order reports first.
pub open spec fn first_some<T>(s: Seq<Option<T>>) -> Option<T>
    decreases s.len(),
{
    if s.len() == 0 {
        None
    } else if s[0] is Some {
        s[0]
    } else {
        first_some(s.drop_first())
    }
}

/// Checks that passed do not change which error comes first.
pub proof fn lemma_first_some_skip<T>(s: Seq<Option<T>>, i: int)
    requires
        0 <= i <= s.len(),
        forall|j: int| 0 <= j < i ==> s[j] is None,
    ensures
        first_some(s) == first_some(s.skip(i)),
    decreases i,
{
    if i > 0 {
        assert(s[0] is None);
        let t = s.drop_first();
        assert forall|j: int| 0 <= j < i - 1 implies t[j] is None by {
            assert(t[j] == s[j + 1]);
        }
        lemma_first_some_skip(t, i - 1);
        assert(t.skip(i - 1) =~= s.skip(i));
    } else {
        assert(s.skip(0) =~= s);
    }
}

/// The error of a sequence of checks is the first failing one.
pub proof fn lemma_first_some_at<T>(s: Seq<Option<T>>, i: int)
    requires
        0 <= i < s.len(),
        forall|j: int| 0 <= j < i ==> s[j] is None,
        s[i] is Some,
    ensures
        first_some(s) == s[i],
{
    lemma_first_some_skip(s, i);
    assert(s.skip(i)[0] == s[i]);
}

/// A sequence of checks that all pass reports no error.
pub proof fn lemma_first_some_none<T>(s: Seq<Option<T>>)
    requires
        forall|j: int| 0 <= j < s.len() ==> s[j] is None,
    ensures
        first_some(s) is None,
{
    lemma_first_some_skip(s, s.len() as int);
}

/// When a sequence of checks reports no error, every check passed.
pub proof fn lemma_first_some_none_all<T>(s: Seq<Option<T>>)
    requires
        first_some(s) is None,
    ensures
        forall|j: int| 0 <= j < s.len() ==> s[j] is None,
    decreases s.len(),
{
    if s.len() > 0 {
        let t = s.drop_first();
        lemma_first_some_none_all(t);
        assert forall|j: int| 0 <= j < s.len() implies s[j] is None by {
            if j > 0 {
                assert(s[j] == t[j - 1]);
            }
        }
    }
}

/// Checks run one after the other: the first error of the concatenation is
/// the first error of the first part, or else of the second part.
pub proof fn lemma_first_some_concat<T>(a: Seq<Option<T>>, b: Seq<Option<T>>)
    ensures
        first_some(a + b) == (if first_some(a) is Some {
            first_some(a)
        } else {
            first_some(b)
        }),
    decreases a.len(),
{
    if a.len() == 0 {
        assert(a + b =~= b);
    } else {
        assert((a + b)[0] == a[0]);
        if a[0] is None {
            assert((a + b).drop_first() =~= a.drop_first() + b);
            lemma_first_some_concat(a.drop_first(), b);
        }
    }
}

} // verus!
