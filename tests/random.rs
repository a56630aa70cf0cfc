use hangman::{RandomSolver, Solver};
use squirrel_rng::SquirrelRng;

#[test]
fn random_solver_walks_a_shuffled_alphabet() {
    let seed = 11;
    let mut solver = RandomSolver::new(SquirrelRng::with_seed(seed));
    let mut letters: Vec<char> = (0..26).map(|_| solver.next()).collect();
    let first = letters[0];
    assert_eq!(solver.next(), first);
    letters.sort();
    let alphabet: Vec<char> = ('a'..='z').collect();
    assert_eq!(letters, alphabet);
}

#[test]
fn random_solver_answers_through_the_trait() {
    let seed = 12;
    let mut solver = RandomSolver::new(SquirrelRng::with_seed(seed));
    let letter = solver.next_letter("*****", 7);
    assert!(letter.is_ascii_lowercase());
}

#[test]
fn random_solver_order_is_shuffled() {
    let alphabet: Vec<char> = ('a'..='z').collect();
    let shuffled = (0..5u32).any(|seed| {
        let mut solver = RandomSolver::new(SquirrelRng::with_seed(seed));
        let order: Vec<char> = (0..26).map(|_| solver.next()).collect();
        order != alphabet
    });
    assert!(shuffled);
}

#[test]
fn random_solver_is_reproducible_from_its_seed() {
    let mut a = RandomSolver::new(SquirrelRng::with_seed(5));
    let mut b = RandomSolver::new(SquirrelRng::with_seed(5));
    for _ in 0..30 {
        assert_eq!(a.next_letter("*****", 7), b.next());
    }
}
