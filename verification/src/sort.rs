//! Ranking a working set: sorting wrapped units ascending by fitness rank.
//! The order is pinned down exactly — the sorted sequence is a mathematical
//! function of the input sequence — so that a whole run of the engine is a
//! function of its inputs.

use vstd::prelude::*;

use crate::lazy::{all_evaluated, unit_seq, LazyUnit};
use crate::unit::{fkey, Unit};

verus! {

/// `s` with `x` inserted after every element whose rank is at most the rank
/// of `x`, and before all others.
pub open spec fn insert_ranked<T: Unit>(s: Seq<T>, x: T) -> Seq<T>
    decreases s.len(),
{
    if s.len() == 0 {
        seq![x]
    } else if fkey(x) < fkey(s.last()) {
        insert_ranked(s.drop_last(), x).push(s.last())
    } else {
        s.push(x)
    }
}

/// `s` sorted ascending by rank: its elements inserted one by one, left to
/// right, each after the already placed elements of equal rank.
pub open spec fn sort_of<T: Unit>(s: Seq<T>) -> Seq<T>
    decreases s.len(),
{
    if s.len() == 0 {
        Seq::<T>::empty()
    } else {
        insert_ranked(sort_of(s.drop_last()), s.last())
    }
}

/// Ascending by rank.
pub open spec fn sorted_by_rank<T: Unit>(s: Seq<T>) -> bool {
    forall|i: int, j: int| 0 <= i < j < s.len() ==> fkey(s[i]) <= fkey(s[j])
}

/// Inserting adds one element.
pub proof fn lemma_insert_ranked_len<T: Unit>(s: Seq<T>, x: T)
    ensures
        insert_ranked(s, x).len() == s.len() + 1,
    decreases s.len(),
{
    if s.len() > 0 && fkey(x) < fkey(s.last()) {
        lemma_insert_ranked_len(s.drop_last(), x);
    }
}

/// Every element of the insertion result is the inserted element or one of
/// the sequence it was inserted into.
pub proof fn lemma_insert_ranked_elems<T: Unit>(s: Seq<T>, x: T)
    ensures
        forall|j: int|
            0 <= j < insert_ranked(s, x).len() ==> insert_ranked(s, x)[j] == x || s.contains(
                #[trigger] insert_ranked(s, x)[j],
            ),
    decreases s.len(),
{
    if s.len() == 0 {
    } else if fkey(x) < fkey(s.last()) {
        lemma_insert_ranked_elems(s.drop_last(), x);
        lemma_insert_ranked_len(s.drop_last(), x);
        let r = insert_ranked(s, x);
        let t = insert_ranked(s.drop_last(), x);
        assert forall|j: int| 0 <= j < r.len() implies r[j] == x || s.contains(#[trigger] r[j]) by {
            if j < t.len() {
                assert(r[j] == t[j]);
                if t[j] != x {
                    let i = choose|i: int| 0 <= i < s.drop_last().len() && s.drop_last()[i] == t[j];
                    assert(s[i] == t[j]);
                }
            } else {
                assert(r[j] == s.last());
            }
        }
    } else {
        assert forall|j: int|
            0 <= j < insert_ranked(s, x).len() implies insert_ranked(s, x)[j] == x || s.contains(
            #[trigger] insert_ranked(s, x)[j],
        ) by {
            if j < s.len() {
                assert(insert_ranked(s, x)[j] == s[j]);
            }
        }
    }
}

/// Inserting into a sorted sequence keeps it sorted.
pub proof fn lemma_insert_ranked_sorted<T: Unit>(s: Seq<T>, x: T)
    requires
        sorted_by_rank(s),
    ensures
        sorted_by_rank(insert_ranked(s, x)),
    decreases s.len(),
{
    if s.len() == 0 {
    } else if fkey(x) < fkey(s.last()) {
        let t = insert_ranked(s.drop_last(), x);
        let r = insert_ranked(s, x);
        assert(sorted_by_rank(s.drop_last()));
        lemma_insert_ranked_sorted(s.drop_last(), x);
        lemma_insert_ranked_elems(s.drop_last(), x);
        lemma_insert_ranked_len(s.drop_last(), x);
        assert forall|i: int, j: int| 0 <= i < j < r.len() implies fkey(r[i]) <= fkey(r[j]) by {
            if j < t.len() {
                assert(r[i] == t[i] && r[j] == t[j]);
            } else {
                assert(r[j] == s.last());
                assert(r[i] == t[i]);
                if t[i] != x {
                    let k = choose|k: int|
                        0 <= k < s.drop_last().len() && s.drop_last()[k] == t[i];
                    assert(s[k] == t[i]);
                    assert(fkey(s[k]) <= fkey(s.last()));
                }
            }
        }
    } else {
        let r = insert_ranked(s, x);
        assert forall|i: int, j: int| 0 <= i < j < r.len() implies fkey(r[i]) <= fkey(r[j]) by {
            if j < s.len() {
            } else {
                assert(r[j] == x);
                assert(r[i] == s[i]);
                assert(fkey(s[i]) <= fkey(s.last()));
            }
        }
    }
}

/// Insertion adds the element to the sequence's multiset of elements.
pub proof fn lemma_insert_ranked_multiset<T: Unit>(s: Seq<T>, x: T)
    ensures
        insert_ranked(s, x).to_multiset() == s.to_multiset().insert(x),
    decreases s.len(),
{
    broadcast use vstd::seq_lib::group_to_multiset_ensures;

    if s.len() == 0 {
        assert(seq![x] =~= Seq::<T>::empty().push(x));
        assert(insert_ranked(s, x).to_multiset() =~= s.to_multiset().insert(x));
    } else if fkey(x) < fkey(s.last()) {
        lemma_insert_ranked_multiset(s.drop_last(), x);
        assert(s =~= s.drop_last().push(s.last()));
        assert(s.to_multiset() == s.drop_last().to_multiset().insert(s.last()));
        assert(insert_ranked(s, x).to_multiset() == s.drop_last().to_multiset().insert(x).insert(
            s.last(),
        ));
        assert(s.drop_last().to_multiset().insert(x).insert(s.last())
            =~= s.drop_last().to_multiset().insert(s.last()).insert(x));
    } else {
    }
}

/// Sorting keeps the length.
pub proof fn lemma_sort_of_len<T: Unit>(s: Seq<T>)
    ensures
        sort_of(s).len() == s.len(),
    decreases s.len(),
{
    if s.len() > 0 {
        lemma_sort_of_len(s.drop_last());
        lemma_insert_ranked_len(sort_of(s.drop_last()), s.last());
    }
}

/// The sorted sequence is ascending by rank.
pub proof fn lemma_sort_of_sorted<T: Unit>(s: Seq<T>)
    ensures
        sorted_by_rank(sort_of(s)),
    decreases s.len(),
{
    if s.len() > 0 {
        lemma_sort_of_sorted(s.drop_last());
        lemma_insert_ranked_sorted(sort_of(s.drop_last()), s.last());
    }
}

/// Sorting keeps the multiset of elements.
pub proof fn lemma_sort_of_multiset<T: Unit>(s: Seq<T>)
    ensures
        sort_of(s).to_multiset() == s.to_multiset(),
    decreases s.len(),
{
    broadcast use vstd::seq_lib::group_to_multiset_ensures;

    if s.len() > 0 {
        lemma_sort_of_multiset(s.drop_last());
        lemma_insert_ranked_multiset(sort_of(s.drop_last()), s.last());
        assert(s =~= s.drop_last().push(s.last()));
        assert(s.to_multiset() == s.drop_last().to_multiset().insert(s.last()));
    }
}

/// Where the scan of the executable sort stops is exactly where the
/// specification inserts.
pub proof fn lemma_insert_ranked_at<T: Unit>(s: Seq<T>, x: T, p: int)
    requires
        sorted_by_rank(s),
        0 <= p <= s.len(),
        forall|j: int| p <= j < s.len() ==> fkey(#[trigger] s[j]) > fkey(x),
        p > 0 ==> fkey(s[p - 1]) <= fkey(x),
    ensures
        insert_ranked(s, x) == s.insert(p, x),
    decreases s.len(),
{
    if s.len() == 0 {
        assert(insert_ranked(s, x) =~= s.insert(0, x));
    } else if fkey(x) < fkey(s.last()) {
        assert(p < s.len());
        assert(sorted_by_rank(s.drop_last()));
        lemma_insert_ranked_at(s.drop_last(), x, p);
        assert(insert_ranked(s, x) =~= s.insert(p, x));
    } else {
        assert(p == s.len());
        assert(insert_ranked(s, x) =~= s.insert(p, x));
    }
}

/// Sorting one more element is inserting it into the sorted rest.
pub proof fn lemma_sort_of_push<T: Unit>(s: Seq<T>, x: T)
    ensures
        sort_of(s.push(x)) == insert_ranked(sort_of(s), x),
{
    assert(s.push(x).drop_last() =~= s);
    assert(s.push(x).last() == x);
}

/// Sorts a working set ascending by the rank of the cached fitness values.
/// The result is pinned down exactly: it is `sort_of` of the input.
pub fn sort_units<T: Unit>(input: Vec<LazyUnit<T>>) -> (r: Vec<LazyUnit<T>>)
    requires
        all_evaluated(input@),
    ensures
        unit_seq(r@) == sort_of(unit_seq(input@)),
        all_evaluated(r@),
        r@.len() == input@.len(),
{
    let ghost iseq = unit_seq(input@);
    let mut rest = input;
    let mut out: Vec<LazyUnit<T>> = Vec::new();
    proof {
        assert(iseq.take(0) =~= Seq::<T>::empty());
        assert(unit_seq(out@) =~= Seq::<T>::empty());
    }
    while rest.len() > 0
        invariant
            all_evaluated(rest@),
            all_evaluated(out@),
            sorted_by_rank(unit_seq(out@)),
            out@.len() + rest@.len() == iseq.len(),
            unit_seq(out@) == sort_of(iseq.take(out@.len() as int)),
            unit_seq(rest@) == iseq.skip(out@.len() as int),
        decreases rest.len(),
    {
        let ghost done = out@.len() as int;
        let ghost pre = rest@;
        let x = rest.remove(0);
        proof {
            assert(x == pre[0]);
            assert(x.unit == iseq[done]) by {
                assert(unit_seq(pre)[0] == iseq.skip(done)[0]);
            }
            assert forall|i: int| 0 <= i < rest@.len() implies (#[trigger] rest@[i]).evaluated() by {
                assert(rest@[i] == pre[i + 1]);
            }
        }
        let xf = x.lazy_fitness.unwrap();
        let xk = xf.key_i64();
        let ghost sorted_prefix = unit_seq(out@);
        let mut p = out.len();
        loop
            invariant
                p <= out.len(),
                out@.len() == sorted_prefix.len(),
                unit_seq(out@) == sorted_prefix,
                all_evaluated(out@),
                sorted_by_rank(sorted_prefix),
                xk as int == fkey(x.unit),
                forall|j: int|
                    p <= j < sorted_prefix.len() ==> fkey(#[trigger] sorted_prefix[j]) > fkey(
                        x.unit,
                    ),
            ensures
                p <= out.len(),
                forall|j: int|
                    p <= j < sorted_prefix.len() ==> fkey(#[trigger] sorted_prefix[j]) > fkey(
                        x.unit,
                    ),
                p > 0 ==> fkey(sorted_prefix[p - 1]) <= fkey(x.unit),
            decreases p,
        {
            if p == 0 {
                break ;
            }
            let prev = out[p - 1].lazy_fitness.unwrap();
            if prev.key_i64() <= xk {
                proof {
                    assert(fkey(sorted_prefix[p - 1]) == prev.key());
                }
                break ;
            }
            proof {
                assert(fkey(sorted_prefix[p - 1]) == prev.key());
            }
            p = p - 1;
        }
        let ghost out_pre = out@;
        out.insert(p, x);
        proof {
            lemma_insert_ranked_at(sorted_prefix, x.unit, p as int);
            assert(unit_seq(out@) =~= sorted_prefix.insert(p as int, x.unit));
            lemma_insert_ranked_sorted(sorted_prefix, x.unit);
            assert(iseq.take(done + 1) =~= iseq.take(done).push(iseq[done]));
            lemma_sort_of_push(iseq.take(done), iseq[done]);
            assert forall|i: int| 0 <= i < out@.len() implies (#[trigger] out@[i]).evaluated() by {
                if i < p {
                    assert(out@[i] == out_pre[i]);
                } else if i == p {
                    assert(out@[i] == x);
                } else {
                    assert(out@[i] == out_pre[i - 1]);
                }
            }
            assert forall|i: int| 0 <= i < rest@.len() implies unit_seq(rest@)[i] == iseq.skip(
                done + 1,
            )[i] by {
                assert(rest@[i] == pre[i + 1]);
                assert(unit_seq(pre)[i + 1] == iseq.skip(done)[i + 1]);
            }
            assert(unit_seq(rest@) =~= iseq.skip(done + 1));
        }
    }
    proof {
        assert(iseq.take(iseq.len() as int) =~= iseq);
    }
    out
}

} // verus!
