//! The engine's laws: properties of a whole run, stated over the same
//! specification functions that the drivers' contracts use.

use vstd::prelude::*;

use crate::population::{
    breed_step, breeders_of, children, lemma_breed_step_len, lemma_breed_step_nonempty,
    pool_size, run_from, run_result, survivor_count, Factor,
};
use crate::sort::{
    lemma_sort_of_len, lemma_sort_of_multiset, lemma_sort_of_sorted, sort_of, sorted_by_rank,
};
use crate::unit::{fkey, is_perfect_unit, lemma_perfect_rank, Fitness, Unit, PERFECT_BITS};

verus! {

/// Reversing twice gives the sequence back.
proof fn lemma_reverse_twice<T>(s: Seq<T>)
    ensures
        s.reverse().reverse() == s,
{
    if s.len() == 0 {
        assert(s.reverse().reverse() =~= s);
    } else {
        assert(s.reverse().reverse() =~= s);
    }
}

/// Every generation a run ever ranks is as large as the target size allows:
/// starting within the target size, the final collection holds exactly
/// `max` units — unless the very first ranking already held a perfect unit,
/// in which case the run ends at once with the initial units, ranked.
pub proof fn lemma_run_from_size<T: Unit>(
    s: Seq<T>,
    bf: Factor,
    sf: Factor,
    max: int,
    st: u64,
    rem: nat,
)
    requires
        bf.wf(),
        sf.wf(),
        1 <= s.len() <= max,
    ensures
        run_from(s, bf, sf, max, st, rem).len() == max || run_from(s, bf, sf, max, st, rem)
            == sort_of(s.reverse()),
    decreases rem,
{
    let ranked = sort_of(s.reverse());
    lemma_sort_of_len(s.reverse());
    if ranked.len() > 0 && is_perfect_unit(ranked.last()) {
    } else if rem == 0 {
    } else {
        lemma_breed_step_len(ranked, bf, sf, max, st);
        let next = breed_step(ranked, bf, sf, max, st);
        let st2 = crate::population::breed_step_state(bf, sf, max, ranked.len() as int, st);
        lemma_run_from_size(next, bf, sf, max, st2, (rem - 1) as nat);
        lemma_sort_of_len(next.reverse());
    }
}

/// After any epoch run that starts within the target size, the resulting
/// collection has exactly `max` elements, unless a perfect-fitness early
/// exit occurred before the first breeding on a population smaller than the
/// target size — then the size is whatever the working set held at exit.
pub proof fn lemma_run_size<T: Unit>(
    init: Seq<T>,
    bf: Factor,
    sf: Factor,
    max: int,
    seed: u64,
    n: nat,
)
    requires
        bf.wf(),
        sf.wf(),
        1 <= init.len() <= max,
    ensures
        run_result(init, bf, sf, max, seed, n).len() == max || run_result(
            init,
            bf,
            sf,
            max,
            seed,
            n,
        ).len() == init.len(),
{
    lemma_run_from_size(init.reverse(), bf, sf, max, seed, n);
    lemma_reverse_twice(init);
    lemma_sort_of_len(init);
}

/// The final working set of a run is ranked ascending and never empty.
pub proof fn lemma_run_from_sorted<T: Unit>(
    s: Seq<T>,
    bf: Factor,
    sf: Factor,
    max: int,
    st: u64,
    rem: nat,
)
    requires
        bf.wf(),
        sf.wf(),
        s.len() >= 1,
        max >= 1,
    ensures
        sorted_by_rank(run_from(s, bf, sf, max, st, rem)),
        run_from(s, bf, sf, max, st, rem).len() >= 1,
    decreases rem,
{
    let ranked = sort_of(s.reverse());
    lemma_sort_of_len(s.reverse());
    lemma_sort_of_sorted(s.reverse());
    if ranked.len() > 0 && is_perfect_unit(ranked.last()) {
    } else if rem == 0 {
    } else {
        lemma_breed_step_nonempty(ranked, bf, sf, max, st);
        let next = breed_step(ranked, bf, sf, max, st);
        let st2 = crate::population::breed_step_state(bf, sf, max, ranked.len() as int, st);
        lemma_run_from_sorted(next, bf, sf, max, st2, (rem - 1) as nat);
    }
}

/// Strongest first: the first element of the extracted result has fitness
/// rank at least that of every other element.
pub proof fn lemma_strongest_first<T: Unit>(
    init: Seq<T>,
    bf: Factor,
    sf: Factor,
    max: int,
    seed: u64,
    n: nat,
)
    requires
        bf.wf(),
        sf.wf(),
        init.len() >= 1,
        max >= 1,
    ensures
        run_result(init, bf, sf, max, seed, n).len() >= 1,
        forall|i: int|
            0 <= i < run_result(init, bf, sf, max, seed, n).len() ==> fkey(
                run_result(init, bf, sf, max, seed, n)[0],
            ) >= fkey(#[trigger] run_result(init, bf, sf, max, seed, n)[i]),
{
    lemma_run_from_sorted(init.reverse(), bf, sf, max, seed, n);
    let asc = run_from(init.reverse(), bf, sf, max, seed, n);
    let r = run_result(init, bf, sf, max, seed, n);
    assert(r == asc.reverse());
    assert(r[0] == asc[asc.len() - 1]);
    assert forall|i: int| 0 <= i < r.len() implies fkey(r[0]) >= fkey(#[trigger] r[i]) by {
        assert(r[i] == asc[asc.len() - 1 - i]);
        if i > 0 {
            assert(fkey(asc[asc.len() - 1 - i]) <= fkey(asc[asc.len() - 1]));
        }
    }
}

/// Determinism under a fixed seed: two populations built from identical
/// initial units, with identical configuration and seed, leave identical
/// final collections after the same number of epochs.
pub proof fn lemma_deterministic<T: Unit>(
    init_one: Seq<T>,
    init_two: Seq<T>,
    bf: Factor,
    sf: Factor,
    max: int,
    seed: u64,
    n: nat,
)
    requires
        init_one == init_two,
    ensures
        run_result(init_one, bf, sf, max, seed, n) == run_result(init_two, bf, sf, max, seed, n),
{
}

/// Early exit: a working set holding a perfect unit, with every unit ranked
/// no higher than perfect, ends the run at its very first ranking — the
/// result is the initial units ranked, untouched by breeding, whatever the
/// requested epoch count.
pub proof fn lemma_early_exit<T: Unit>(
    init: Seq<T>,
    bf: Factor,
    sf: Factor,
    max: int,
    seed: u64,
    n: nat,
)
    requires
        init.len() >= 1,
        exists|i: int| 0 <= i < init.len() && is_perfect_unit(#[trigger] init[i]),
        forall|i: int|
            0 <= i < init.len() ==> fkey(#[trigger] init[i]) <= (Fitness {
                bits: PERFECT_BITS,
            }).key(),
    ensures
        run_result(init, bf, sf, max, seed, n) == sort_of(init).reverse(),
{
    broadcast use vstd::seq_lib::group_to_multiset_ensures;

    lemma_reverse_twice(init);
    let ranked = sort_of(init);
    lemma_sort_of_len(init);
    lemma_sort_of_sorted(init);
    lemma_sort_of_multiset(init);
    let w = choose|i: int| 0 <= i < init.len() && is_perfect_unit(#[trigger] init[i]);
    let p = init[w];
    assert(init.contains(p));
    assert(init.to_multiset().count(p) > 0);
    assert(ranked.to_multiset().count(p) > 0);
    assert(ranked.contains(p));
    let wr = choose|i: int| 0 <= i < ranked.len() && ranked[i] == p;
    assert(0 <= wr < ranked.len() && ranked[wr] == p);
    let last = ranked.last();
    assert(fkey(last) >= fkey(p));
    assert(ranked.contains(last));
    assert(ranked.to_multiset().count(last) > 0);
    assert(init.to_multiset().count(last) > 0);
    assert(init.contains(last));
    let wl = choose|i: int| 0 <= i < init.len() && init[i] == last;
    assert(0 <= wl < init.len() && init[wl] == last);
    assert(fkey(last) <= (Fitness { bits: PERFECT_BITS }).key());
    assert(fkey(p) == (Fitness { bits: PERFECT_BITS }).key()) by {
        lemma_perfect_rank(p.spec_fitness());
    }
    assert(fkey(last) == (Fitness { bits: PERFECT_BITS }).key());
    lemma_perfect_rank(last.spec_fitness());
    assert(is_perfect_unit(last));
}

/// No survivors: with a survival factor of zero, no parent is carried into
/// the next generation unchanged — a breeding step consists of bred
/// offspring alone, one per slot of the target size.
pub proof fn lemma_no_survivors<T: Unit>(s: Seq<T>, bf: Factor, sf: Factor, max: int, st: u64)
    requires
        bf.wf(),
        sf.wf(),
        sf.num == 0,
        s.len() >= 1,
        max >= 0,
    ensures
        breed_step(s, bf, sf, max, st) == children(
            breeders_of(s, pool_size(bf, s.len() as int)),
            st,
            max,
        ),
{
    let k = pool_size(bf, s.len() as int);
    crate::population::lemma_survivor_count_bounds(sf, k);
    crate::population::lemma_pool_size_bounds(bf, s.len() as int);
    assert(survivor_count(sf, k) == 0);
    let b = breeders_of(s, k);
    assert(b.take(0) =~= Seq::<T>::empty());
    assert(children(b, st, max) + b.take(0) =~= children(b, st, max));
}

} // verus!
