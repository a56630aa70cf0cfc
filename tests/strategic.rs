use hangman::strategic::{read_words, DEFAULT_SEED};
use hangman::{IntoStrategicSolver, Solver, StrategicSolverFactory};

fn solver_for(list: &[&str]) -> IntoStrategicSolver {
    StrategicSolverFactory::from_words(list).into_solver()
}

fn masked(secret: &str, guessed: &[char]) -> String {
    secret
        .chars()
        .map(|c| if guessed.contains(&c) { c } else { '*' })
        .collect()
}

#[test]
fn dictionary_keeps_long_ascii_words_in_uppercase() {
    let factory = StrategicSolverFactory::from_words(&["apple", "fig", "Grape", "naïve", "kiwis", "pear"]);
    assert_eq!(factory.dictionary(), &["APPLE", "GRAPE", "KIWIS"]);
    let factory = StrategicSolverFactory::from_words(&["apple", "fig", "Grape", "berry", "café"]);
    assert_eq!(factory.dictionary(), &["APPLE", "BERRY", "GRAPE"]);
}

#[test]
fn word_list_keeps_its_order_when_read() {
    let words = read_words(&["apple", "fig", "Grape", "berry", "café"]);
    assert_eq!(words, vec!["APPLE", "GRAPE", "BERRY"]);
}

#[test]
fn concrete_scenario_picks_from_the_tie_set() {
    let mut solver = solver_for(&["APPLE", "GRAPE", "BERRY"]);
    let letter = solver.next_letter("*****", 7);
    assert!(['E', 'P', 'R'].contains(&letter), "got {letter}");
    assert_eq!(solver.pending(), Some(letter as u8));
    assert!(!solver.is_submitted(letter as u8));
}

#[test]
fn concrete_scenario_with_every_seed_stays_in_the_tie_set() {
    for seed in 0..200u32 {
        let factory = StrategicSolverFactory::from_words(&["APPLE", "GRAPE", "BERRY"]);
        let mut solver = factory.into_solver_with_seed(seed);
        let letter = solver.next_letter("*****", 7);
        assert!(['E', 'P', 'R'].contains(&letter), "seed {seed} gave {letter}");
    }
}

#[test]
fn absent_pending_letter_becomes_disallowed() {
    let mut solver = solver_for(&["ZZZZZ", "ABCDE"]);
    let mut first = solver.next_letter("*****", 7);
    let mut turns = 0;
    while first != 'Z' && turns < 10 {
        first = solver.next_letter("*****", 7);
        turns += 1;
    }
    assert_eq!(first, 'Z');
    assert_eq!(solver.pending(), Some(b'Z'));
    let next = solver.next_letter("*****", 6);
    assert!(solver.is_disallowed(b'Z'));
    assert!(solver.is_submitted(b'Z'));
    assert!(next.is_ascii_uppercase());
    assert_ne!(next, 'Z');
}

#[test]
fn present_pending_letter_is_submitted_only() {
    let mut solver = solver_for(&["EEEEA"]);
    assert_eq!(solver.next_letter("*****", 7), 'E');
    let next = solver.next_letter("EEEE*", 7);
    assert!(solver.is_submitted(b'E'));
    assert!(!solver.is_disallowed(b'E'));
    assert_eq!(next, 'A');
}

#[test]
fn empty_dictionary_still_answers_a_letter() {
    let mut solver = solver_for(&[]);
    for _ in 0..30 {
        let letter = solver.next_letter("*****", 7);
        assert!(letter.is_ascii_uppercase());
    }
}

#[test]
fn no_letter_is_proposed_twice_while_the_secret_is_a_candidate() {
    let list = ["APPLE", "GRAPE", "BERRY", "LEMON", "MELON", "PEACH", "CHERRY", "BANANA"];
    let secret = "MELON";
    let mut solver = solver_for(&list);
    let mut guessed: Vec<char> = Vec::new();
    let mut mask = masked(secret, &guessed);
    while mask.contains('*') {
        let letter = solver.next_letter(&mask, 7);
        assert!(!guessed.contains(&letter), "{letter} proposed twice");
        guessed.push(letter);
        mask = masked(secret, &guessed);
    }
    assert_eq!(mask, "MELON");
    for c in &guessed {
        if !secret.contains(*c) {
            assert!(solver.is_submitted(*c as u8));
        }
    }
}

#[test]
fn history_only_grows() {
    let mut solver = solver_for(&["APPLE", "GRAPE", "BERRY"]);
    let mut proposed: Vec<u8> = Vec::new();
    for _ in 0..8 {
        let letter = solver.next_letter("*****", 7) as u8;
        for &p in &proposed {
            assert!(solver.is_submitted(p));
            if solver.is_disallowed(p) {
                assert!(solver.is_submitted(p));
            }
        }
        proposed.push(letter);
    }
    for &p in &proposed[..proposed.len() - 1] {
        assert!(solver.is_disallowed(p));
    }
}

#[test]
fn tied_letters_are_chosen_about_equally_often() {
    let mut seen = [0usize; 5];
    let trials = 2500u32;
    for seed in 0..trials {
        let mut solver = StrategicSolverFactory::from_words(&["ABCDE"]).into_solver_with_seed(seed);
        let letter = solver.next_letter("*****", 7);
        let index = "ABCDE".find(letter).expect("a letter of the tie set");
        seen[index] += 1;
    }
    for count in seen {
        assert!(count > 350 && count < 650, "counts {seen:?}");
    }
}

#[test]
fn same_seed_reproduces_the_same_guesses() {
    let list = ["APPLE", "GRAPE", "BERRY", "LEMON", "MELON"];
    let mut a = StrategicSolverFactory::from_words(&list).into_solver_with_seed(DEFAULT_SEED);
    let mut b = solver_for(&list);
    for _ in 0..10 {
        assert_eq!(a.next_letter("*****", 7), b.next_letter("*****", 7));
    }
}

#[test]
fn borrowed_solver_uses_the_dictionary() {
    let factory = StrategicSolverFactory::from_words(&["APPLE", "GRAPE", "BERRY"]);
    let mut solver = factory.solver();
    let letter = solver.next_letter("*****", 7);
    assert!(['E', 'P', 'R'].contains(&letter));
}

#[test]
fn borrowing_and_owning_solvers_agree() {
    let list = ["APPLE", "GRAPE", "BERRY", "LEMON", "MELON", "PEACH"];
    let factory = StrategicSolverFactory::from_words(&list);
    let mut a = factory.solver();
    let mut b = solver_for(&list);
    for mask in ["*****", "*****", "**E**", "**E**", "*PE**"] {
        assert_eq!(a.next_letter(mask, 7), b.next_letter(mask, 7));
    }
}
