use hangman::collections::LetterSet;
use hangman::letters::fits;
use hangman::rank::{entries_from, first_most_frequent, first_rank_by_key};
use hangman::tally::letter_frequencies;

fn words(list: &[&str]) -> Vec<String> {
    list.iter().map(|w| w.to_string()).collect()
}

fn counts(mut entries: Vec<(u8, usize)>) -> Vec<(u8, usize)> {
    entries.sort();
    entries
}

#[test]
fn revealed_letters_must_match() {
    let none = LetterSet::of(&[]);
    assert!(fits("A**LE", "APPLE", &none));
    assert!(!fits("A**LE", "GRAPE", &none));
    assert!(fits("*****", "BERRY", &none));
}

#[test]
fn length_must_match() {
    let none = LetterSet::of(&[]);
    assert!(!fits("****", "APPLE", &none));
    assert!(!fits("******", "APPLE", &none));
    assert!(!fits("APPL", "APPLE", &none));
}

#[test]
fn disallowed_letters_exclude_a_word() {
    let absent = LetterSet::of(&[b'P', b'Q']);
    assert!(!fits("*****", "APPLE", &absent));
    assert!(fits("*****", "BERRY", &absent));
    assert!(!fits("**RR*", "BERRY", &LetterSet::of(&[b'Y'])));
}

#[test]
fn tally_counts_every_occurrence() {
    let dictionary = words(&["APPLE", "GRAPE", "BERRY"]);
    let none = LetterSet::of(&[]);
    let entries = counts(letter_frequencies(&dictionary, "*****", &none));
    assert_eq!(
        entries,
        vec![
            (b'A', 2),
            (b'B', 1),
            (b'E', 3),
            (b'G', 1),
            (b'L', 1),
            (b'P', 3),
            (b'R', 3),
            (b'Y', 1),
        ]
    );
}

#[test]
fn tally_skips_filtered_words_and_non_letters() {
    let dictionary = words(&["APPLE", "GRAPE", "BERRY", "XY-ZW"]);
    let absent = LetterSet::of(&[b'B']);
    let entries = counts(letter_frequencies(&dictionary, "*****", &absent));
    assert_eq!(
        entries,
        vec![
            (b'A', 2),
            (b'E', 2),
            (b'G', 1),
            (b'L', 1),
            (b'P', 3),
            (b'R', 1),
            (b'W', 1),
            (b'X', 1),
            (b'Y', 1),
            (b'Z', 1),
        ]
    );
    let entries = counts(letter_frequencies(&dictionary, "*R***", &absent));
    assert_eq!(
        entries,
        vec![(b'A', 1), (b'E', 1), (b'G', 1), (b'P', 1), (b'R', 1)]
    );
}

#[test]
fn tally_of_empty_dictionary_is_empty() {
    let none = LetterSet::of(&[]);
    assert!(letter_frequencies(&[], "*****", &none).is_empty());
}

#[test]
fn first_rank_keeps_entries_with_the_first_count() {
    let items = vec![(b'E', 3), (b'R', 3), (b'A', 2), (b'P', 3), (b'Y', 1)];
    assert_eq!(
        first_rank_by_key(items),
        vec![(b'E', 3), (b'R', 3), (b'P', 3)]
    );
    assert_eq!(first_rank_by_key(Vec::new()), Vec::new());
    assert_eq!(first_rank_by_key(vec![(b'Q', 0)]), vec![(b'Q', 0)]);
}

#[test]
fn first_most_frequent_entry_is_found() {
    let items = vec![(b'A', 2), (b'B', 1), (b'E', 3), (b'L', 1), (b'P', 3)];
    assert_eq!(first_most_frequent(&items), 2);
    assert_eq!(entries_from(&items, 2), vec![(b'E', 3), (b'L', 1), (b'P', 3)]);
    assert_eq!(first_rank_by_key(entries_from(&items, 2)), vec![(b'E', 3), (b'P', 3)]);
    assert_eq!(entries_from(&items, 5), Vec::new());
    assert_eq!(first_most_frequent(&vec![(b'Q', 0)]), 0);
}

#[test]
fn frequencies_come_in_alphabetical_order() {
    let dictionary = words(&["ZEBRA", "APPLE"]);
    let list = letter_frequencies(&dictionary, "*****", &LetterSet::of(&[]));
    let letters: Vec<u8> = list.iter().map(|e| e.0).collect();
    assert_eq!(letters, b"ABELPRZ".to_vec());
}
