//! A memoizing wrapper around a unit: the fitness value is computed at most
//! once over the wrapper's lifetime and cached; there is no invalidation
//! path.

use vstd::prelude::*;

use crate::unit::{Fitness, Unit};

verus! {

/// Wraps a unit together with its lazily evaluated fitness, so that repeated
/// reads cost one evaluation.
pub struct LazyUnit<T: Unit> {
    pub unit: T,
    pub lazy_fitness: Option<Fitness>,
}

impl<T: Unit> LazyUnit<T> {
    /// The cache, when filled, holds the unit's own fitness.
    pub open spec fn wf(self) -> bool {
        match self.lazy_fitness {
            Some(f) => f == self.unit.spec_fitness(),
            None => true,
        }
    }

    /// The cache is filled, with the unit's own fitness.
    pub open spec fn evaluated(self) -> bool {
        self.lazy_fitness == Some(self.unit.spec_fitness())
    }

    pub fn from(unit: T) -> (r: Self)
        ensures
            r.unit == unit,
            r.lazy_fitness is None,
            r.wf(),
    {
        LazyUnit { unit, lazy_fitness: None }
    }

    /// The unit's fitness, computed through the unit on the first call and
    /// read from the cache on every later one. Once the cache is filled a
    /// call changes nothing: the wrapper's fitness is evaluated at most once
    /// over its lifetime.
    pub fn fitness(&mut self) -> (r: Fitness)
        requires
            old(self).wf(),
        ensures
            final(self).unit == old(self).unit,
            r == old(self).unit.spec_fitness(),
            final(self).evaluated(),
            old(self).lazy_fitness is Some ==> *final(self) == *old(self),
    {
        match self.lazy_fitness {
            Some(x) => x,
            None => {
                let fitness = self.unit.fitness();
                self.lazy_fitness = Some(fitness);
                fitness
            },
        }
    }

    /// This wrapper with its cache filled.
    pub fn forced(self) -> (r: Self)
        requires
            self.wf(),
        ensures
            r.unit == self.unit,
            r.evaluated(),
    {
        let mut out = self;
        out.fitness();
        out
    }
}

/// The units under a sequence of wrappers, in order.
pub open spec fn unit_seq<T: Unit>(s: Seq<LazyUnit<T>>) -> Seq<T> {
    s.map_values(|l: LazyUnit<T>| l.unit)
}

/// Every wrapper's cache is empty or holds its unit's fitness.
pub open spec fn all_wf<T: Unit>(s: Seq<LazyUnit<T>>) -> bool {
    forall|i: int| 0 <= i < s.len() ==> (#[trigger] s[i]).wf()
}

/// Every wrapper's cache holds its unit's fitness.
pub open spec fn all_evaluated<T: Unit>(s: Seq<LazyUnit<T>>) -> bool {
    forall|i: int| 0 <= i < s.len() ==> (#[trigger] s[i]).evaluated()
}

} // verus!
