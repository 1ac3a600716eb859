//! The engine run end to end on small candidate-solution types.

use spiril::population::{Factor, Population};
use spiril::unit::{Fitness, Unit};

use rand::RngExt;

fn fit(x: f64) -> Fitness {
    Fitness::from_bits(x.to_bits())
}

#[derive(Default, Clone)]
struct MockUnit {
    fitness: f64,
}

impl Unit for MockUnit {
    fn fitness(&self) -> Fitness {
        fit(self.fitness)
    }

    fn breed_with(&self, _: &Self) -> Self {
        MockUnit { fitness: 1.0 }
    }
}

#[derive(Default, Clone)]
struct FloatyUnit {
    x: f64,
    y: f64,
}

impl Unit for FloatyUnit {
    fn fitness(&self) -> Fitness {
        fit((self.x + self.y) / 2.0)
    }

    fn breed_with(&self, other: &Self) -> Self {
        FloatyUnit { x: self.x * 1.01, y: other.y * 1.01 }
    }
}

#[derive(Default, Clone)]
struct TendUnit {
    towards: f64,
    x: f64,
}

impl Unit for TendUnit {
    fn fitness(&self) -> Fitness {
        fit(-(self.towards - self.x).abs())
    }

    fn breed_with(&self, other: &Self) -> Self {
        TendUnit {
            x: ((self.x + other.x) / 2.0) + rand::rng().random_range(-0.1..0.1),
            towards: self.towards,
        }
    }
}

#[test]
fn simple_compilation_test() {
    // Add one strong unit and one weak unit.
    let mut pop = Population::new(vec![
        MockUnit { fitness: 0.2 },
        MockUnit { fitness: 0.1 },
    ]);
    pop.set_size(10);
    pop.set_breed_factor(Factor::new(1, 1));
    pop.epochs(100);
    let best_units = pop.finish();

    assert_eq!(best_units.len(), 10);
    assert_eq!(best_units[0].fitness, 1.0);
}

#[test]
fn basic_algorithm_test() {
    let towards = 10.0;
    let test_vec = vec![
        TendUnit { x: 0.3, towards },
        TendUnit { x: 0.1, towards },
        TendUnit { x: 0.7, towards },
        TendUnit { x: 2.3, towards },
        TendUnit { x: 4.3, towards },
    ];

    let mut pop = Population::new(test_vec.clone());
    pop.set_size(100);
    pop.set_breed_factor(Factor::new(1, 4));
    pop.epochs(100);
    let best_unit = pop.finish().get(0).unwrap().clone();

    assert_eq!(best_unit.x.round(), towards);
}

#[test]
fn no_survivors_test() {
    let towards = 10.0;
    let test_vec = vec![
        TendUnit { x: 0.3, towards },
        TendUnit { x: 0.7, towards },
    ];

    let mut pop = Population::new(test_vec.clone());
    pop.set_size(100);
    pop.set_breed_factor(Factor::new(1, 2));
    pop.set_survival_factor(Factor::new(0, 1));
    pop.epochs(500);
    let best_unit = pop.finish().get(0).unwrap().clone();

    assert_eq!(best_unit.x.round(), towards);
}

#[test]
fn parallel_epochs_test() {
    let towards = 10.0;
    let test_vec = vec![
        TendUnit { x: 0.1, towards },
        TendUnit { x: 2.3, towards },
    ];

    let mut pop = Population::new(test_vec.clone());
    pop.set_size(200);
    pop.set_breed_factor(Factor::new(1, 4));
    pop.epochs_parallel(100, 2);
    let best_unit = pop.finish().get(0).unwrap().clone();

    assert_eq!(best_unit.x.round(), towards);
}

#[test]
fn seeding_test() {
    let test_vec = vec![
        FloatyUnit { x: 0.23, y: 0.12 },
        FloatyUnit { x: 0.1, y: 1.45 },
        FloatyUnit { x: 0.14, y: 2.56 },
        FloatyUnit { x: 3.7, y: 0.1 },
        FloatyUnit { x: 2.6, y: 1.3 },
    ];

    let mut pop_one = Population::new(test_vec.clone());
    pop_one.set_size(200);
    pop_one.set_rand_seed(10);
    pop_one.set_breed_factor(Factor::new(3, 10));
    pop_one.epochs(200);
    let best_unit_one = pop_one.finish().get(0).unwrap().clone();

    let mut pop_two = Population::new(test_vec.clone());
    pop_two.set_size(200);
    pop_two.set_rand_seed(10);
    pop_two.set_breed_factor(Factor::new(3, 10));
    pop_two.epochs(200);
    let best_unit_two = pop_two.finish().get(0).unwrap().clone();

    assert_eq!(best_unit_one.x, best_unit_two.x);
    assert_eq!(best_unit_one.y, best_unit_two.y);
}
