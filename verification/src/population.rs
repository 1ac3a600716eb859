//! The population container: owns the unit collection and the run
//! configuration, and exposes the epoch drivers and result extraction.
//!
//! A run is pinned down exactly: the collection that a driver leaves behind
//! is a mathematical function ([`run_result`]) of the initial collection, the
//! configuration and the seed, so runs under a fixed seed are reproducible.

use vstd::prelude::*;

use crate::lazy::{all_evaluated, all_wf, unit_seq, LazyUnit};
use crate::rng::{index_at, state_at, SeededRng};
use crate::sort::{sort_of, sort_units};
use crate::unit::{fkey, is_perfect_unit, Unit};
use vstd::arithmetic::div_mod::{
    lemma_div_is_ordered, lemma_div_multiples_vanish, lemma_div_multiples_vanish_fancy,
};
use vstd::arithmetic::mul::{lemma_mul_inequality, lemma_mul_nonnegative};

verus! {

/// A ratio in the closed unit interval, held as a pair of machine integers.
/// Configuration ratios (the breed factor and the survival factor) are exact
/// rationals: `num / den` with `num <= den` and `den > 0`.
#[derive(Clone, Copy, Debug, PartialEq, Eq, Structural)]
pub struct Factor {
    pub num: u32,
    pub den: u32,
}

impl Factor {
    /// A well-formed ratio lies in the closed unit interval.
    pub open spec fn wf(self) -> bool {
        0 < self.den && self.num <= self.den
    }

    pub fn new(num: u32, den: u32) -> (r: Factor)
        requires
            0 < den,
            num <= den,
        ensures
            r == (Factor { num, den }),
            r.wf(),
    {
        Factor { num, den }
    }
}

/// How many of `len` ranked units are allowed into the breeding pool: the
/// breed factor of the configuration, rounded down.
pub open spec fn breed_limit(bf: Factor, len: int) -> int {
    (bf.num as int * len) / (bf.den as int)
}

/// How many units the pool actually holds: units are taken fittest first
/// until the limit is reached, but at least one is always taken, and taking
/// stops when the working set is exhausted.
pub open spec fn pool_size(bf: Factor, len: int) -> int {
    let b = breed_limit(bf, len);
    if b == 0 || b > len {
        len
    } else {
        b
    }
}

/// The breeding pool: the last `k` units of the ranked (ascending) working
/// set, fittest first.
pub open spec fn breeders_of<T: Unit>(s: Seq<T>, k: int) -> Seq<T> {
    s.skip(s.len() - k).reverse()
}

/// How many of a pool of `k` breeders survive into the next generation: the
/// survival factor of the configuration, rounded up.
pub open spec fn survivor_count(sf: Factor, k: int) -> int {
    (k * sf.num as int + sf.den as int - 1) / (sf.den as int)
}

/// How many offspring are bred: the target size less the survivors. A pool
/// larger than the target size yields no offspring at all rather than a
/// negative count.
pub open spec fn offspring_count(surv: int, max: int) -> int {
    if surv <= max {
        max - surv
    } else {
        0
    }
}

/// The offspring of slot `i`: breeder `i` (cyclically) bred with a breeder
/// drawn by the `i`-th pseudo-random index.
pub open spec fn child_at<T: Unit>(b: Seq<T>, st: u64, i: int) -> T {
    b[i % (b.len() as int)].spec_breed(&b[index_at(state_at(st, i as nat), b.len() as int)])
}

/// The offspring of the first `count` slots, in order.
pub open spec fn children<T: Unit>(b: Seq<T>, st: u64, count: int) -> Seq<T> {
    Seq::new(count as nat, |i: int| child_at(b, st, i))
}

/// One selection/breeding step on a ranked (ascending) working set: the
/// fittest units form the pool, the rest are culled; offspring fill the
/// target size, and the fittest survivors of the pool are carried over
/// unchanged behind them.
pub open spec fn breed_step<T: Unit>(s: Seq<T>, bf: Factor, sf: Factor, max: int, st: u64) -> Seq<
    T,
> {
    let k = pool_size(bf, s.len() as int);
    let b = breeders_of(s, k);
    let surv = survivor_count(sf, k);
    children(b, st, offspring_count(surv, max)) + b.take(surv)
}

/// The randomness state after one breeding step on a set of `len` units: one
/// draw was made per offspring slot.
pub open spec fn breed_step_state(bf: Factor, sf: Factor, max: int, len: int, st: u64) -> u64 {
    let k = pool_size(bf, len);
    let surv = survivor_count(sf, k);
    state_at(st, offspring_count(surv, max) as nat)
}

/// A full run over a working set `s` (in stack order: the next unit to be
/// evaluated last): every generation is evaluated and ranked; a generation
/// whose fittest unit is perfect ends the run at once, otherwise breeding
/// continues until `rem` steps are spent. The result is the final ranked
/// working set, ascending.
pub open spec fn run_from<T: Unit>(
    s: Seq<T>,
    bf: Factor,
    sf: Factor,
    max: int,
    st: u64,
    rem: nat,
) -> Seq<T>
    decreases rem,
{
    let ranked = sort_of(s.reverse());
    if ranked.len() > 0 && is_perfect_unit(ranked.last()) {
        ranked
    } else if rem == 0 {
        ranked
    } else {
        run_from(
            breed_step(ranked, bf, sf, max, st),
            bf,
            sf,
            max,
            breed_step_state(bf, sf, max, ranked.len() as int, st),
            (rem - 1) as nat,
        )
    }
}

/// What a driver leaves in the population: the final ranked working set of
/// [`run_from`], strongest candidate first.
pub open spec fn run_result<T: Unit>(
    init: Seq<T>,
    bf: Factor,
    sf: Factor,
    max: int,
    seed: u64,
    n_epochs: nat,
) -> Seq<T> {
    run_from(init.reverse(), bf, sf, max, seed, n_epochs).reverse()
}

/// Products of bounded non-negative factors are bounded.
proof fn lemma_mul_le(a: int, b: int, c: int, d: int)
    by (nonlinear_arith)
    requires
        0 <= a <= c,
        0 <= b <= d,
    ensures
        a * b <= c * d,
{
}

/// The pool is never empty and never larger than the working set.
pub proof fn lemma_pool_size_bounds(bf: Factor, len: int)
    requires
        bf.wf(),
        len >= 1,
    ensures
        1 <= pool_size(bf, len) <= len,
{
    let b = breed_limit(bf, len);
    lemma_mul_nonnegative(bf.num as int, len);
    lemma_div_is_ordered(0, bf.num as int * len, bf.den as int);
    lemma_div_multiples_vanish(0, bf.den as int);
    assert(b >= 0);
}

/// Survivors never outnumber the pool; a survival factor of zero leaves no
/// survivors at all.
pub proof fn lemma_survivor_count_bounds(sf: Factor, k: int)
    requires
        sf.wf(),
        k >= 0,
    ensures
        0 <= survivor_count(sf, k) <= k,
        sf.num == 0 ==> survivor_count(sf, k) == 0,
{
    let num = sf.num as int;
    let den = sf.den as int;
    lemma_mul_nonnegative(k, num);
    lemma_div_is_ordered(0, k * num + den - 1, den);
    lemma_div_multiples_vanish(0, den);
    lemma_mul_inequality(num, den, k);
    assert(num * k <= den * k);
    lemma_div_is_ordered(k * num + den - 1, den * k + den - 1, den);
    lemma_div_multiples_vanish_fancy(k, den - 1, den);
    assert((den * k + den - 1) / den == k);
    if sf.num == 0 {
        lemma_div_multiples_vanish_fancy(0, den - 1, den);
        assert(k * num == den * 0) by (nonlinear_arith)
            requires
                num == 0,
        ;
    }
}

/// A breeding step on a working set no larger than the target size fills the
/// next generation to exactly the target size.
pub proof fn lemma_breed_step_len<T: Unit>(s: Seq<T>, bf: Factor, sf: Factor, max: int, st: u64)
    requires
        bf.wf(),
        sf.wf(),
        1 <= s.len() <= max,
    ensures
        breed_step(s, bf, sf, max, st).len() == max,
{
    let k = pool_size(bf, s.len() as int);
    lemma_pool_size_bounds(bf, s.len() as int);
    lemma_survivor_count_bounds(sf, k);
    let b = breeders_of(s, k);
    assert(b.len() == k);
    let surv = survivor_count(sf, k);
    assert(b.take(surv).len() == surv);
    assert(children(b, st, offspring_count(surv, max)).len() == offspring_count(surv, max));
}

/// A breeding step never empties the working set: it holds offspring up to
/// the target size, or surviving parents, or both.
pub proof fn lemma_breed_step_nonempty<T: Unit>(
    s: Seq<T>,
    bf: Factor,
    sf: Factor,
    max: int,
    st: u64,
)
    requires
        bf.wf(),
        sf.wf(),
        s.len() >= 1,
        max >= 1,
    ensures
        breed_step(s, bf, sf, max, st).len() >= 1,
{
    let k = pool_size(bf, s.len() as int);
    lemma_pool_size_bounds(bf, s.len() as int);
    lemma_survivor_count_bounds(sf, k);
    let b = breeders_of(s, k);
    assert(b.len() == k);
    let surv = survivor_count(sf, k);
    assert(b.take(surv).len() == surv);
    assert(children(b, st, offspring_count(surv, max)).len() == offspring_count(surv, max));
}

/// Wraps every unit of a collection, last first, so that the wrapped working
/// set is the collection in stack order with every cache empty.
fn wrap_reversed<T: Unit>(source: &mut Vec<T>) -> (r: Vec<LazyUnit<T>>)
    ensures
        final(source)@.len() == 0,
        r@.len() == old(source)@.len(),
        forall|i: int|
            0 <= i < r@.len() ==> (#[trigger] r@[i]).unit == old(source)@[old(source)@.len() - 1
                - i] && r@[i].lazy_fitness is None,
{
    let ghost init = source@;
    let mut active: Vec<LazyUnit<T>> = Vec::new();
    loop
        invariant
            source@ == init.take(init.len() - active@.len()),
            active@.len() <= init.len(),
            forall|i: int|
                0 <= i < active@.len() ==> (#[trigger] active@[i]).unit == init[init.len() - 1 - i]
                    && active@[i].lazy_fitness is None,
        ensures
            source@.len() == 0,
            active@.len() == init.len(),
            forall|i: int|
                0 <= i < active@.len() ==> (#[trigger] active@[i]).unit == init[init.len() - 1 - i]
                    && active@[i].lazy_fitness is None,
        decreases source@.len(),
    {
        match source.pop() {
            None => { break ; },
            Some(u) => {
                active.push(LazyUnit::from(u));
            },
        }
    }
    active
}

/// Evaluates the fitness of every wrapped unit in turn, single-threaded,
/// moving each from the working stack onto the processed stack: the result
/// holds the same units in reverse order, every cache filled.
fn evaluate_seq<T: Unit>(input: Vec<LazyUnit<T>>) -> (r: Vec<LazyUnit<T>>)
    requires
        all_wf(input@),
    ensures
        r@.len() == input@.len(),
        all_evaluated(r@),
        unit_seq(r@) == unit_seq(input@).reverse(),
{
    let ghost iseq = input@;
    let mut src = input;
    let mut out: Vec<LazyUnit<T>> = Vec::new();
    loop
        invariant
            src@ == iseq.take(src@.len() as int),
            out@.len() + src@.len() == iseq.len(),
            all_wf(iseq),
            forall|i: int|
                0 <= i < out@.len() ==> (#[trigger] out@[i]).unit == iseq[iseq.len() - 1 - i].unit
                    && out@[i].evaluated(),
        ensures
            src@.len() == 0,
            out@.len() == iseq.len(),
            forall|i: int|
                0 <= i < out@.len() ==> (#[trigger] out@[i]).unit == iseq[iseq.len() - 1 - i].unit
                    && out@[i].evaluated(),
        decreases src@.len(),
    {
        match src.pop() {
            None => { break ; },
            Some(u) => {
                proof {
                    assert(u == iseq[src@.len() as int]);
                }
                let mut w = u;
                w.fitness();
                out.push(w);
            },
        }
    }
    proof {
        assert(unit_seq(out@) =~= unit_seq(iseq).reverse());
        assert(all_evaluated(out@));
    }
    out
}

/// The wrapped units that a sequence of chunks holds, in chunk order.
pub open spec fn chunk_units<T: Unit>(chunks: Seq<Vec<LazyUnit<T>>>) -> Seq<LazyUnit<T>> {
    chunks.map_values(|v: Vec<LazyUnit<T>>| v@).flatten()
}

/// Relies on `crossbeam::scope`, `Scope::spawn` and `ScopedJoinHandle::join`:
/// one worker thread is spawned per chunk and each runs the verified
/// [`LazyUnit::forced`] over its own chunk in order; `scope` returns only
/// once every worker has finished, and joining the handles in spawn order
/// concatenates the evaluated chunks in chunk order. A worker that panics
/// inside a caller's fitness function makes the final `unwrap` panic, which
/// re-raises the failure on the driving thread.
#[verifier::external_body]
fn eval_chunks<T: Unit>(chunks: Vec<Vec<LazyUnit<T>>>) -> (r: Vec<LazyUnit<T>>)
    requires
        all_wf(chunk_units(chunks@)),
    ensures
        r@.len() == chunk_units(chunks@).len(),
        forall|m: int|
            0 <= m < r@.len() ==> (#[trigger] r@[m]).unit == chunk_units(chunks@)[m].unit
                && r@[m].evaluated(),
{
    crossbeam::scope(|s| {
        let handles: Vec<_> = chunks
            .into_iter()
            .map(|c| s.spawn(move |_| c.into_iter().map(LazyUnit::forced).collect::<Vec<_>>()))
            .collect();
        handles.into_iter().flat_map(|h| h.join().unwrap()).collect()
    }).unwrap()
}

/// Evaluates the fitness of every wrapped unit across `workers` concurrent
/// worker threads, one contiguous chunk of the working set per worker. The
/// generation barrier is the thread scope: the function returns only once
/// every unit of the generation is evaluated. The result is the same as
/// sequential evaluation: the units in reverse order, every cache filled.
fn evaluate_par<T: Unit>(input: Vec<LazyUnit<T>>, workers: usize) -> (r: Vec<LazyUnit<T>>)
    requires
        workers >= 1,
        all_wf(input@),
    ensures
        r@.len() == input@.len(),
        all_evaluated(r@),
        unit_seq(r@) == unit_seq(input@).reverse(),
{
    let ghost iseq = input@;
    // Reverse onto a stack, as the sequential evaluation would.
    let mut src = input;
    let mut rev: Vec<LazyUnit<T>> = Vec::new();
    loop
        invariant
            src@ == iseq.take(src@.len() as int),
            rev@.len() + src@.len() == iseq.len(),
            forall|i: int|
                0 <= i < rev@.len() ==> #[trigger] rev@[i] == iseq[iseq.len() - 1 - i],
        ensures
            src@.len() == 0,
            rev@.len() == iseq.len(),
            forall|i: int|
                0 <= i < rev@.len() ==> #[trigger] rev@[i] == iseq[iseq.len() - 1 - i],
        decreases src@.len(),
    {
        match src.pop() {
            None => { break ; },
            Some(u) => {
                rev.push(u);
            },
        }
    }
    let ghost rseq = rev@;
    proof {
        assert(all_wf(rseq));
    }
    // Cut the stack into at most `workers` contiguous chunks.
    let len = rev.len();
    let nc = if workers > len {
        if len == 0 {
            1
        } else {
            len
        }
    } else {
        workers
    };
    let base = len / nc;
    let extra = len % nc;
    proof {
        vstd::arithmetic::div_mod::lemma_fundamental_div_mod(len as int, nc as int);
    }
    let mut chunks: Vec<Vec<LazyUnit<T>>> = Vec::new();
    let mut c: usize = 0;
    while c < nc
        invariant
            c <= nc,
            0 < nc,
            base == len as int / nc as int,
            extra == len as int % nc as int,
            extra < nc,
            nc as int * base as int + extra as int == len as int,
            len == rseq.len(),
            chunks@.len() == c,
            rev@.len() == (nc - c) as int * base as int + (
            if c < extra {
                (extra - c) as int
            } else {
                0
            }),
            chunk_units(chunks@) + rev@ =~= rseq,
            rev@ =~= rseq.skip(rseq.len() - rev@.len()),
        decreases nc - c,
    {
        broadcast use vstd::prelude::Seq::lemma_flatten_push;

        proof {
            lemma_mul_inequality(1, nc as int, base as int);
            assert(c < extra ==> base as int + 1 <= len as int);
            assert((nc - c) as int * base as int >= base as int) by (nonlinear_arith)
                requires
                    c < nc,
                    base >= 0,
            ;
        }
        let take_n = if c < extra {
            base + 1
        } else {
            base
        };
        let mut cur: Vec<LazyUnit<T>> = Vec::new();
        let ghost rev_at = rev@;
        let mut q: usize = 0;
        while q < take_n
            invariant
                q <= take_n,
                take_n <= rev_at.len(),
                cur@ == rev_at.take(q as int),
                rev@ == rev_at.skip(q as int),
            decreases take_n - q,
        {
            let x = rev.remove(0);
            cur.push(x);
            proof {
                assert(cur@ =~= rev_at.take(q as int + 1));
                assert(rev@ =~= rev_at.skip(q as int + 1));
            }
            q = q + 1;
        }
        let ghost chunks_pre = chunks@;
        chunks.push(cur);
        proof {
            assert(chunks@.map_values(|v: Vec<LazyUnit<T>>| v@) =~= chunks_pre.map_values(
                |v: Vec<LazyUnit<T>>| v@,
            ).push(cur@));
            assert(chunk_units(chunks@) =~= chunk_units(chunks_pre) + cur@);
            assert(chunk_units(chunks@) + rev@ =~= rseq);
            assert((nc - c) as int * base as int - base as int == (nc - (c + 1)) as int
                * base as int) by (nonlinear_arith)
                requires
                    c < nc,
            ;
            assert(rev@ =~= rseq.skip(rseq.len() - rev@.len()));
        }
        c = c + 1;
    }
    proof {
        assert(rev@.len() == 0) by {
            if c >= extra {
                assert((nc - c) as int * base as int == 0) by (nonlinear_arith)
                    requires
                        c == nc,
                ;
            }
        }
        assert(chunk_units(chunks@) =~= rseq);
    }
    let out = eval_chunks(chunks);
    proof {
        assert(unit_seq(out@) =~= unit_seq(iseq).reverse());
        assert(all_evaluated(out@));
    }
    out
}

/// A collection of units being evolved, together with its configuration: the
/// target size restored at the end of every epoch, the breed and survival
/// ratios, and the seed of the selection randomness.
pub struct Population<T: Unit> {
    pub units: Vec<T>,
    pub seed: usize,
    pub breed_factor: Factor,
    pub survival_factor: Factor,
    pub max_size: usize,
}

impl<T: Unit> Population<T> {
    /// The configuration ratios are well formed; the breed factor is not
    /// zero.
    pub open spec fn wf(self) -> bool {
        self.breed_factor.wf() && self.breed_factor.num > 0 && self.survival_factor.wf()
    }

    /// Creates a new population from an initial unit collection, with the
    /// default configuration: seed one, target size one hundred, both ratios
    /// one half.
    pub fn new(init_pop: Vec<T>) -> (r: Population<T>)
        ensures
            r.units@ == init_pop@,
            r.seed == 1,
            r.breed_factor == (Factor { num: 1, den: 2 }),
            r.survival_factor == (Factor { num: 1, den: 2 }),
            r.max_size == 100,
            r.wf(),
    {
        Population {
            units: init_pop,
            seed: 1,
            breed_factor: Factor { num: 1, den: 2 },
            survival_factor: Factor { num: 1, den: 2 },
            max_size: 100,
        }
    }

    /// Sets the seed of the selection randomness.
    pub fn set_rand_seed(&mut self, seed: usize)
        ensures
            *final(self) == (Population { seed, ..*old(self) }),
    {
        self.seed = seed;
    }

    /// Sets the target size of the population. If already populated with
    /// more than this amount, the tail of the collection is dropped.
    pub fn set_size(&mut self, size: usize)
        ensures
            final(self).units@ == old(self).units@.take(
                if size <= old(self).units@.len() {
                    size as int
                } else {
                    old(self).units@.len() as int
                },
            ),
            final(self).max_size == size,
            final(self).seed == old(self).seed,
            final(self).breed_factor == old(self).breed_factor,
            final(self).survival_factor == old(self).survival_factor,
    {
        self.units.truncate(size);
        self.max_size = size;
    }

    /// Sets the breed factor: the share of the population, taken fittest
    /// first, that is able to breed each epoch. It must lie in the half-open
    /// unit interval, zero excluded; a high value lets poorly performing
    /// units breed, which slows convergence but helps escape local peaks.
    pub fn set_breed_factor(&mut self, breed_factor: Factor)
        requires
            breed_factor.wf(),
            breed_factor.num > 0,
        ensures
            *final(self) == (Population { breed_factor, ..*old(self) }),
    {
        self.breed_factor = breed_factor;
    }

    /// Sets the survival factor: the share of the breeding pool that is
    /// carried unchanged into the next epoch. It may be any ratio in the
    /// closed unit interval, zero included.
    pub fn set_survival_factor(&mut self, survival_factor: Factor)
        requires
            survival_factor.wf(),
        ensures
            *final(self) == (Population { survival_factor, ..*old(self) }),
    {
        self.survival_factor = survival_factor;
    }

    /// One selection/breeding step on the ranked working set: pops the
    /// fittest units into the breeding pool and culls the rest, breeds one
    /// offspring per open slot pairing each breeder cyclically with a
    /// pseudo-randomly drawn one, then carries the fittest survivors of the
    /// pool over unchanged. The new working set and the advanced randomness
    /// state are exact functions of the old ones.
    fn epoch(&self, units: &mut Vec<LazyUnit<T>>, rng: &mut SeededRng)
        requires
            self.wf(),
            old(units)@.len() >= 1,
            all_wf(old(units)@),
        ensures
            unit_seq(final(units)@) == breed_step(
                unit_seq(old(units)@),
                self.breed_factor,
                self.survival_factor,
                self.max_size as int,
                old(rng).state,
            ),
            final(rng).state == breed_step_state(
                self.breed_factor,
                self.survival_factor,
                self.max_size as int,
                old(units)@.len() as int,
                old(rng).state,
            ),
            all_wf(final(units)@),
    {
        let ghost lseq0 = units@;
        let ghost s0 = unit_seq(lseq0);
        let len = units.len();

        // The share of the working set allowed to breed, rounded down.
        proof {
            lemma_mul_le(
                self.breed_factor.num as int,
                len as int,
                u32::MAX as int,
                usize::MAX as int,
            );
            lemma_mul_inequality(
                self.breed_factor.num as int,
                self.breed_factor.den as int,
                len as int,
            );
            lemma_div_is_ordered(
                self.breed_factor.num as int * len as int,
                self.breed_factor.den as int * len as int,
                self.breed_factor.den as int,
            );
            lemma_div_multiples_vanish(len as int, self.breed_factor.den as int);
            lemma_mul_nonnegative(self.breed_factor.num as int, len as int);
            lemma_div_is_ordered(
                0,
                self.breed_factor.num as int * len as int,
                self.breed_factor.den as int,
            );
            lemma_div_multiples_vanish(0, self.breed_factor.den as int);
        }
        let bu_wide: u128 = (self.breed_factor.num as u128 * len as u128) / (
        self.breed_factor.den as u128);
        let breed_up_to: usize = bu_wide as usize;
        assert(breed_up_to == breed_limit(self.breed_factor, len as int));

        // Pop the fittest into the pool until it is full or the set is
        // drained; cull whatever is left.
        let mut breeders: Vec<LazyUnit<T>> = Vec::new();
        loop
            invariant_except_break
                breed_up_to > 0 ==> breeders@.len() < breed_up_to,
            invariant
                units@ == lseq0.take(lseq0.len() - breeders@.len()),
                breeders@.len() <= lseq0.len(),
                forall|i: int|
                    0 <= i < breeders@.len() ==> #[trigger] breeders@[i] == lseq0[lseq0.len() - 1
                        - i],
                breed_up_to == breed_limit(self.breed_factor, lseq0.len() as int),
            ensures
                breeders@.len() == pool_size(self.breed_factor, lseq0.len() as int),
                forall|i: int|
                    0 <= i < breeders@.len() ==> #[trigger] breeders@[i] == lseq0[lseq0.len() - 1
                        - i],
            decreases units@.len(),
        {
            match units.pop() {
                None => {
                    proof {
                        assert(breeders@.len() == lseq0.len());
                    }
                    break ;
                },
                Some(u) => {
                    breeders.push(u);
                    if breeders.len() == breed_up_to {
                        break ;
                    }
                },
            }
        }
        units.clear();
        let ghost k = breeders@.len() as int;
        let ghost b = unit_seq(breeders@);
        proof {
            lemma_pool_size_bounds(self.breed_factor, lseq0.len() as int);
            assert(b =~= breeders_of(s0, k));
            assert(all_wf(breeders@));
        }

        // The share of the pool that survives, rounded up.
        let bl = breeders.len();
        proof {
            lemma_mul_le(
                bl as int,
                self.survival_factor.num as int,
                usize::MAX as int,
                u32::MAX as int,
            );
            lemma_survivor_count_bounds(self.survival_factor, bl as int);
        }
        let sv_wide: u128 = ((bl as u128) * (self.survival_factor.num as u128) + (
        self.survival_factor.den as u128) - 1) / (self.survival_factor.den as u128);
        let surviving: usize = sv_wide as usize;
        assert(surviving == survivor_count(self.survival_factor, k));

        // Breed one offspring per open slot.
        let offspring: usize = if surviving <= self.max_size {
            self.max_size - surviving
        } else {
            0
        };
        assert(offspring == offspring_count(survivor_count(self.survival_factor, k), self.max_size as int));
        let ghost st0 = rng.state;
        for i in 0..offspring
            invariant
                breeders@.len() == k,
                bl == k,
                b == unit_seq(breeders@),
                all_wf(breeders@),
                k >= 1,
                units@.len() == i,
                forall|j: int|
                    0 <= j < i ==> (#[trigger] units@[j]).unit == child_at(b, st0, j)
                        && units@[j].lazy_fitness is None,
                rng.state == state_at(st0, i as nat),
        {
            let rs = rng.next_index(bl);
            let child = breeders[i % bl].unit.breed_with(&breeders[rs].unit);
            units.push(LazyUnit::from(child));
            proof {
                assert(breeders@[(i % bl) as int].unit == b[(i as int) % k]);
                assert(child == child_at(b, st0, i as int));
                crate::rng::lemma_state_at_step(st0, i as nat);
            }
        }

        // Carry the surviving parents over, in pool order.
        breeders.truncate(surviving);
        units.append(&mut breeders);
        proof {
            assert(unit_seq(units@) =~= children(b, st0, offspring as int) + breeders_of(
                s0,
                k,
            ).take(surviving as int));
            assert(all_wf(units@));
        }
    }

    /// The generational state machine shared by the two drivers: evaluate
    /// every unit of the generation (through the chosen evaluation), rank
    /// ascending, stop early on a perfect fittest unit, otherwise breed,
    /// until the requested epochs are spent; then hand the final ranked
    /// units back to the population, strongest first.
    fn run_epochs(&mut self, n_epochs: u32, workers: Option<usize>)
        requires
            old(self).units@.len() >= 1,
            old(self).max_size >= 1,
            old(self).wf(),
            workers matches Some(w) ==> w >= 1,
        ensures
            final(self).units@ == run_result(
                old(self).units@,
                old(self).breed_factor,
                old(self).survival_factor,
                old(self).max_size as int,
                old(self).seed as u64,
                n_epochs as nat,
            ),
            final(self).seed == old(self).seed,
            final(self).breed_factor == old(self).breed_factor,
            final(self).survival_factor == old(self).survival_factor,
            final(self).max_size == old(self).max_size,
    {
        let ghost init = self.units@;
        let ghost bf = self.breed_factor;
        let ghost sf = self.survival_factor;
        let ghost maxi = self.max_size as int;

        let mut active = wrap_reversed(&mut self.units);
        proof {
            assert(unit_seq(active@) =~= init.reverse());
            assert(all_wf(active@));
        }
        let mut rng = SeededRng::from_seed(self.seed as u64);
        let ghost goal = run_from(init.reverse(), bf, sf, maxi, rng.state, n_epochs as nat);

        let mut g: u32 = 0;
        loop
            invariant_except_break
                run_from(unit_seq(active@), bf, sf, maxi, rng.state, (n_epochs - g) as nat)
                    == goal,
            invariant
                self.units@.len() == 0,
                self.seed == old(self).seed,
                self.breed_factor == bf,
                self.survival_factor == sf,
                self.max_size as int == maxi,
                self.wf(),
                maxi >= 1,
                active@.len() >= 1,
                all_wf(active@),
                g <= n_epochs,
                workers matches Some(w) ==> w >= 1,
            ensures
                self.units@.len() == 0,
                self.seed == old(self).seed,
                self.breed_factor == bf,
                self.survival_factor == sf,
                self.max_size as int == maxi,
                all_evaluated(active@),
                unit_seq(active@) == goal,
            decreases n_epochs - g,
        {
            let ghost prev = unit_seq(active@);
            let ghost st = rng.state;
            let ghost rem = (n_epochs - g) as nat;

            // Evaluate.
            let worked = match workers {
                None => evaluate_seq(active),
                Some(w) => evaluate_par(active, w),
            };
            // Rank.
            let ranked = sort_units(worked);
            active = ranked;
            proof {
                assert(unit_seq(worked@) == prev.reverse());
                assert(unit_seq(active@) == sort_of(prev.reverse()));
                crate::sort::lemma_sort_of_len(prev.reverse());
                assert(active@.len() >= 1);
            }
            // Stop early on a perfect solution.
            let top = active.len() - 1;
            let top_fit = active[top].lazy_fitness.unwrap();
            proof {
                assert(active@[top as int].evaluated());
                assert(unit_seq(active@).last() == active@[top as int].unit);
            }
            if top_fit.is_perfect() {
                proof {
                    assert(is_perfect_unit(unit_seq(active@).last()));
                    assert(run_from(prev, bf, sf, maxi, st, rem) == unit_seq(active@));
                }
                break ;
            }
            if g == n_epochs {
                proof {
                    assert(rem == 0);
                    assert(run_from(prev, bf, sf, maxi, st, rem) == unit_seq(active@));
                }
                break ;
            }
            // Breed the next generation.
            let ghost ranked_seq = unit_seq(active@);
            self.epoch(&mut active, &mut rng);
            g = g + 1;
            proof {
                lemma_breed_step_nonempty(ranked_seq, bf, sf, maxi, st);
                assert(active@.len() == unit_seq(active@).len());
                assert(run_from(prev, bf, sf, maxi, st, rem) == run_from(
                    unit_seq(active@),
                    bf,
                    sf,
                    maxi,
                    rng.state,
                    (rem - 1) as nat,
                ));
            }
        }

        // Hand the final ranked units back, strongest candidate first.
        let ghost done = unit_seq(active@);
        loop
            invariant
                self.seed == old(self).seed,
                self.breed_factor == bf,
                self.survival_factor == sf,
                self.max_size as int == maxi,
                self.units@.len() + active@.len() == done.len(),
                unit_seq(active@) == done.take(active@.len() as int),
                forall|i: int|
                    0 <= i < self.units@.len() ==> #[trigger] self.units@[i] == done[done.len() - 1
                        - i],
            ensures
                active@.len() == 0,
                self.seed == old(self).seed,
                self.breed_factor == bf,
                self.survival_factor == sf,
                self.max_size as int == maxi,
                forall|i: int|
                    0 <= i < self.units@.len() ==> #[trigger] self.units@[i] == done[done.len() - 1
                        - i],
                self.units@.len() == done.len(),
            decreases active@.len(),
        {
            let ghost apre = active@;
            match active.pop() {
                None => { break ; },
                Some(u) => {
                    proof {
                        assert(u == apre[apre.len() - 1]);
                        assert(unit_seq(apre)[apre.len() - 1] == u.unit);
                        assert(u.unit == done[apre.len() - 1]);
                        assert(unit_seq(active@) =~= done.take(active@.len() as int));
                    }
                    self.units.push(u.unit);
                },
            }
        }
        proof {
            assert(self.units@ =~= done.reverse());
        }
    }

    /// Runs a number of epochs on the driving thread alone.
    pub fn epochs(&mut self, n_epochs: u32)
        requires
            old(self).units@.len() >= 1,
            old(self).max_size >= 1,
            old(self).wf(),
        ensures
            final(self).units@ == run_result(
                old(self).units@,
                old(self).breed_factor,
                old(self).survival_factor,
                old(self).max_size as int,
                old(self).seed as u64,
                n_epochs as nat,
            ),
            final(self).seed == old(self).seed,
            final(self).breed_factor == old(self).breed_factor,
            final(self).survival_factor == old(self).survival_factor,
            final(self).max_size == old(self).max_size,
    {
        self.run_epochs(n_epochs, None)
    }

    /// Runs a number of epochs with fitness evaluated across `n_processes`
    /// concurrent worker threads. Useful when the fitness calculation is an
    /// expensive operation. The generation barrier keeps the run equal to
    /// the single-threaded one: the contract pins the very same result.
    pub fn epochs_parallel(&mut self, n_epochs: u32, n_processes: u32)
        requires
            old(self).units@.len() >= 1,
            old(self).max_size >= 1,
            old(self).wf(),
            n_processes >= 1,
        ensures
            final(self).units@ == run_result(
                old(self).units@,
                old(self).breed_factor,
                old(self).survival_factor,
                old(self).max_size as int,
                old(self).seed as u64,
                n_epochs as nat,
            ),
            final(self).seed == old(self).seed,
            final(self).breed_factor == old(self).breed_factor,
            final(self).survival_factor == old(self).survival_factor,
            final(self).max_size == old(self).max_size,
    {
        self.run_epochs(n_epochs, Some(n_processes as usize))
    }

    /// Returns the full population of units, ordered such that the first
    /// element is the strongest candidate, and leaves the population empty.
    pub fn finish(&mut self) -> (r: Vec<T>)
        ensures
            r@ == old(self).units@,
            final(self).units@ == Seq::<T>::empty(),
            final(self).seed == old(self).seed,
            final(self).breed_factor == old(self).breed_factor,
            final(self).survival_factor == old(self).survival_factor,
            final(self).max_size == old(self).max_size,
    {
        let mut empty_units: Vec<T> = Vec::new();
        core::mem::swap(&mut empty_units, &mut self.units);
        empty_units
    }
}

} // verus!
