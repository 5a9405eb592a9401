//! Counting.

use vstd::prelude::*;

verus! {

/// How often `k` occurs in `s`.
pub open spec fn occurrences(s: Seq<usize>, k: usize) -> nat
    decreases s.len(),
{
    if s.len() == 0 {
        0
    } else {
        occurrences(s.drop_last(), k) + if s.last() == k {
            1nat
        } else {
            0nat
        }
    }
}

/// One more than the greatest item of `s`; zero if `s` is empty.
pub open spec fn span(s: Seq<usize>) -> nat
    decreases s.len(),
{
    if s.len() == 0 {
        0
    } else if s.last() + 1 > span(s.drop_last()) {
        (s.last() + 1) as nat
    } else {
        span(s.drop_last())
    }
}

/// No number occurs more often than there are items.
pub proof fn lemma_occurrences_bounded(s: Seq<usize>, k: usize)
    ensures
        occurrences(s, k) <= s.len(),
    decreases s.len(),
{
    if s.len() > 0 {
        lemma_occurrences_bounded(s.drop_last(), k);
    }
}

/// Given a sequence of numbers, count the number of occurrences of each:
/// entry `k` of the result says how often `k` occurs.  The result is just
/// long enough to hold the greatest number.
pub fn histogram(iter: Vec<usize>) -> (hist: Vec<usize>)
    requires
        forall|i: int| 0 <= i < iter@.len() ==> (#[trigger] iter@[i]) < usize::MAX,
    ensures
        hist@.len() == span(iter@),
        forall|k: usize| k < hist@.len() ==> (#[trigger] hist@[k as int]) == occurrences(iter@, k),
{
    let mut hist: Vec<usize> = Vec::new();
    let mut n: usize = 0;
    assert(iter@.take(0) =~= Seq::<usize>::empty());
    while n < iter.len()
        invariant
            n <= iter@.len(),
            forall|i: int| 0 <= i < iter@.len() ==> (#[trigger] iter@[i]) < usize::MAX,
            hist@.len() == span(iter@.take(n as int)),
            forall|k: usize|
                k < hist@.len() ==> (#[trigger] hist@[k as int]) == occurrences(
                    iter@.take(n as int),
                    k,
                ),
        decreases iter@.len() - n,
    {
        let i = iter[n];
        let ghost seen = iter@.take(n as int);
        let ghost next = iter@.take(n + 1);
        proof {
            assert(next.drop_last() =~= seen);
            assert(next.last() == i);
            lemma_occurrences_bounded(seen, i);
            assert forall|k: usize| k >= span(seen) implies occurrences(seen, k) == 0 by {
                lemma_beyond_span(seen, k);
            }
        }
        while i + 1 > hist.len()
            invariant
                i < usize::MAX,
                span(next) == (if i + 1 > span(seen) {
                    (i + 1) as nat
                } else {
                    span(seen)
                }),
                hist@.len() >= span(seen),
                hist@.len() <= span(next),
                forall|k: usize|
                    k < hist@.len() ==> (#[trigger] hist@[k as int]) == occurrences(seen, k),
                forall|k: usize| k >= span(seen) ==> occurrences(seen, k) == 0,
            decreases i + 1 - hist@.len(),
        {
            hist.push(0);
        }
        let count = hist[i];
        hist[i] = count + 1;
        n += 1;
    }
    assert(iter@.take(iter@.len() as int) =~= iter@);
    hist
}

/// A number that is not below the span does not occur.
pub proof fn lemma_beyond_span(s: Seq<usize>, k: usize)
    requires
        k >= span(s),
    ensures
        occurrences(s, k) == 0,
    decreases s.len(),
{
    if s.len() > 0 {
        lemma_beyond_span(s.drop_last(), k);
    }
}

} // verus!
