//! Sequences of numbers with a given sum.

use vstd::prelude::*;

verus! {

/// The sum of the items of `caps`.
pub open spec fn total(caps: Seq<usize>) -> nat
    decreases caps.len(),
{
    if caps.len() == 0 {
        0
    } else {
        total(caps.drop_last()) + caps.last() as nat
    }
}

/// The sequences `s` of the length of `caps` with `s[i] <= caps[i]` for all
/// `i` and with sum `target`.  They are listed by their last item, least
/// first, and among those with one last item by the rest of the sequence, in
/// the same way.
pub open spec fn sequences_with_sum(caps: Seq<usize>, target: nat) -> Seq<Seq<usize>>
    decreases caps.len(), 1nat, 0nat,
{
    if target > total(caps) {
        Seq::empty()
    } else if caps.len() == 0 {
        seq![Seq::empty()]
    } else {
        let front = caps.drop_last();
        let last_min = if total(front) < target {
            (target - total(front)) as nat
        } else {
            0nat
        };
        let last_cap = if target < caps.last() {
            target
        } else {
            caps.last() as nat
        };
        sequences_with_last(front, target, last_min, last_cap + 1)
    }
}

/// The sequences that extend a sequence for `front` by a last item `x` with
/// `lo <= x < hi`, and have sum `target`.
pub open spec fn sequences_with_last(front: Seq<usize>, target: nat, lo: nat, hi: nat) -> Seq<
    Seq<usize>,
>
    decreases front.len(), 2nat, hi - lo,
{
    if lo >= hi || hi - 1 > target {
        Seq::empty()
    } else {
        sequences_with_last(front, target, lo, (hi - 1) as nat) + sequences_with_sum(
            front,
            (target - (hi - 1)) as nat,
        ).map_values(|s: Seq<usize>| s.push((hi - 1) as usize))
    }
}

/// The sequences of numbers held by the vectors of `v`.
pub open spec fn views_of(v: Seq<Vec<usize>>) -> Seq<Seq<usize>> {
    v.map_values(|s: Vec<usize>| s@)
}

/// The sum of the items of `caps`.
fn sum_of(caps: &Vec<usize>) -> (r: usize)
    requires
        total(caps@) <= usize::MAX,
    ensures
        r == total(caps@),
{
    let mut r: usize = 0;
    let mut i: usize = 0;
    assert(caps@.take(0) =~= Seq::<usize>::empty());
    while i < caps.len()
        invariant
            i <= caps@.len(),
            total(caps@) <= usize::MAX,
            r == total(caps@.take(i as int)),
        decreases caps@.len() - i,
    {
        proof {
            assert(caps@.take(i + 1).drop_last() =~= caps@.take(i as int));
            lemma_total_of_prefix(caps@, i + 1);
        }
        r = r + caps[i];
        i += 1;
    }
    assert(caps@.take(caps@.len() as int) =~= caps@);
    r
}

/// The sum of a prefix is at most the sum of the whole.
pub proof fn lemma_total_of_prefix(caps: Seq<usize>, k: int)
    requires
        0 <= k <= caps.len(),
    ensures
        total(caps.take(k)) <= total(caps),
    decreases caps.len() - k,
{
    if k < caps.len() {
        lemma_total_of_prefix(caps, k + 1);
        assert(caps.take(k + 1).drop_last() =~= caps.take(k));
    } else {
        assert(caps.take(k) =~= caps);
    }
}

/// Returns a vector that runs over all sequences with a given sum that respect the
/// given capacity vector.
pub fn fixed_sum_sequences(caps: &Vec<usize>, target_sum: usize) -> (sequences: Vec<Vec<usize>>)
    requires
        total(caps@) <= usize::MAX,
    ensures
        views_of(sequences@) == sequences_with_sum(caps@, target_sum as nat),
    decreases caps@.len(),
{
    let cap_aggregate = sum_of(caps);
    // case 0: problem is insoluble
    if target_sum > cap_aggregate {
        let none: Vec<Vec<usize>> = Vec::new();
        assert(views_of(none@) =~= Seq::<Seq<usize>>::empty());
        return none;
    } else if caps.is_empty() {
        // case 1: problem is trivial because our sequence must have length 0
        let mut one: Vec<Vec<usize>> = Vec::new();
        one.push(Vec::new());
        assert(views_of(one@) =~= seq![Seq::<usize>::empty()]);
        return one;
    }
    // all remaining cases:
    // we will recursively solve the problem for sequences of 1-shorter length; to do so we
    // make a truncated sequence of caps and several alternative target sums for that
    // truncated sequence.

    let mut trunc_caps: Vec<usize> = Vec::new();
    let mut i: usize = 0;
    while i < caps.len() - 1
        invariant
            caps@.len() > 0,
            i <= caps@.len() - 1,
            trunc_caps@ == caps@.take(i as int),
        decreases caps@.len() - i,
    {
        trunc_caps.push(caps[i]);
        assert(trunc_caps@ =~= caps@.take(i + 1));
        i += 1;
    }
    assert(trunc_caps@ =~= caps@.drop_last());
    let trunc_cap_agg: usize = sum_of(&trunc_caps);
    // calculate the max and min possible values in the deleted end slot
    let last_min = if trunc_cap_agg < target_sum {
        target_sum - trunc_cap_agg
    } else {
        0
    };
    let mut last_cap = caps[caps.len() - 1];
    if target_sum < last_cap {
        last_cap = target_sum
    }
    // make a container to store results

    let mut sequences: Vec<Vec<usize>> = Vec::new();
    // we must recursively solve the problem for each possible value we will place in the deleted end slot
    let mut last_val = last_min;
    assert(views_of(sequences@) =~= sequences_with_last(
        trunc_caps@,
        target_sum as nat,
        last_min as nat,
        last_min as nat,
    ));
    assert(sequences_with_sum(caps@, target_sum as nat) == sequences_with_last(
        trunc_caps@,
        target_sum as nat,
        last_min as nat,
        (last_cap + 1) as nat,
    ));
    while last_val <= last_cap
        invariant
            sequences_with_sum(caps@, target_sum as nat) == sequences_with_last(
                trunc_caps@,
                target_sum as nat,
                last_min as nat,
                (last_cap + 1) as nat,
            ),
            last_min <= last_val <= last_cap + 1,
            last_cap <= target_sum,
            caps@.len() > 0,
            trunc_caps@ == caps@.drop_last(),
            total(trunc_caps@) <= usize::MAX,
            views_of(sequences@) == sequences_with_last(
                trunc_caps@,
                target_sum as nat,
                last_min as nat,
                last_val as nat,
            ),
        decreases last_cap + 1 - last_val,
    {
        let trunc_target_sum = target_sum - last_val;
        let mut trunc_sequences = fixed_sum_sequences(&trunc_caps, trunc_target_sum);
        let ghost found = views_of(trunc_sequences@);
        let ghost before = views_of(sequences@);
        let ghost extend = |s: Seq<usize>| s.push(last_val);
        // complete each truncated sequence to a full-length sequence
        let mut k: usize = 0;
        while k < trunc_sequences.len()
            invariant
                k <= trunc_sequences@.len(),
                trunc_sequences@.len() == found.len(),
                extend == |s: Seq<usize>| s.push(last_val),
                forall|m: int| 0 <= m < k ==> (#[trigger] trunc_sequences@[m])@ == extend(found[m]),
                forall|m: int|
                    k <= m < found.len() ==> (#[trigger] trunc_sequences@[m])@ == found[m],
            decreases trunc_sequences@.len() - k,
        {
            trunc_sequences[k].push(last_val);
            k += 1;
        }
        assert(views_of(trunc_sequences@) =~= found.map_values(extend));
        sequences.append(&mut trunc_sequences);  // collect the results into our growing pool
        assert(views_of(sequences@) =~= before + found.map_values(extend));
        if last_val == last_cap {
            proof {
                assert(views_of(sequences@) == sequences_with_last(
                    trunc_caps@,
                    target_sum as nat,
                    last_min as nat,
                    (last_cap + 1) as nat,
                ));
            }
            return sequences;
        }
        last_val += 1;
    }
    sequences
}

} // verus!
