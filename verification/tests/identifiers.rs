use std::iter::once;

use js_instrumentation::identifiers::{CharacterTracker, IdentifierTracker};

fn assert_character_has_consistent_index(character: char, expected_first_unused_pos: usize) {
    // Check that an index exists for this character.
    let index = CharacterTracker::index_for(character);
    assert!(index.is_some());
    let index = index.unwrap();

    // Check that we can map the index back to the original character.
    assert_eq!(CharacterTracker::character_for(index), Some(character));

    // Check that the first unused position for this character is what we expect.
    let mut character_tracker = CharacterTracker::new();
    assert_eq!(
        character_tracker.characters[index].first_unused(),
        expected_first_unused_pos
    );

    // Check that adding an instance of this character changes the first unused position.
    character_tracker.add(&character.to_string().repeat(expected_first_unused_pos + 1));
    assert_eq!(
        character_tracker.characters[index].first_unused(),
        expected_first_unused_pos + 1
    );
}

#[test]
fn uses_consistent_indices_for_characters() {
    for nondigit in ('A'..='Z').chain('a'..='z').chain(once('$')) {
        assert_character_has_consistent_index(nondigit, 0);
    }
    for digit in '0'..='9' {
        assert_character_has_consistent_index(digit, 1);
    }
    assert_character_has_consistent_index('_', 2);
}

fn for_every_identifier_character<F>(mut f: F)
where
    F: FnMut(char) -> (),
{
    for character in ('A'..='Z')
        .chain('a'..='z')
        .chain('0'..='9')
        .chain(once('$'))
        .chain(once('_'))
    {
        f(character);
    }
}

#[test]
fn finds_an_unused_character() {
    let mut character_tracker = CharacterTracker::new();

    // Add all single character identifiers except 'z'.
    for_every_identifier_character(|character| {
        if character == 'z' {
            return;
        }
        character_tracker.add(&character.to_string());
    });

    assert_eq!(character_tracker.first_unused_character(), ('z', 0));
}

#[test]
fn finds_an_unused_character_when_all_single_character_identifiers_are_used() {
    let mut character_tracker = CharacterTracker::new();

    // Add all single character identifiers.
    for_every_identifier_character(|character| {
        character_tracker.add(&character.to_string());
    });

    assert_eq!(character_tracker.first_unused_character(), ('A', 1));
}

#[test]
fn finds_an_unused_character_when_all_characters_at_pos_1_are_used() {
    let mut character_tracker = CharacterTracker::new();

    // Add an example of every character at position 1: e.g. "Aa", "Ab",
    // "Ac", etc. We should still be able to find an available character
    // at position 0.
    for_every_identifier_character(|character| {
        character_tracker.add(&format!("A{}", character.to_string()));
    });

    assert_eq!(character_tracker.first_unused_character(), ('A', 0));
}

#[test]
fn finds_an_unused_character_when_all_characters_at_pos_0_and_1_are_used() {
    let mut character_tracker = CharacterTracker::new();

    // Add an example of every character at position 0: e.g. "A", "B",
    // "C", etc.
    for_every_identifier_character(|character| {
        character_tracker.add(&character.to_string());
    });

    // Add an example of every character at position 1: e.g. "Aa", "Ab",
    // "Ac", etc.
    for_every_identifier_character(|character| {
        character_tracker.add(&format!("A{}", character.to_string()));
    });

    // We should consider the first unused character to be at position 2.
    assert_eq!(character_tracker.first_unused_character(), ('A', 2));
}

#[test]
fn identifier_freshness_avoids_added_identifiers() {
    let mut tracker = IdentifierTracker::new(vec!["D", "$"]);
    tracker.add_ident("D");
    tracker.add_ident("x");
    tracker.add_ident("A");
    let fresh = tracker.new_unused_identifier("D");
    assert_ne!(fresh, "D");
    assert_ne!(fresh, "x");
    assert_ne!(fresh, "A");
}

#[test]
fn desired_identifier_returned_when_never_used() {
    let mut tracker = IdentifierTracker::new(vec!["D", "$"]);
    tracker.add_ident("x");
    assert_eq!(tracker.new_unused_identifier("D"), "D");
    assert_eq!(tracker.new_unused_identifier("$"), "$");
}

#[test]
fn fresh_identifiers_never_repeat() {
    let mut tracker = IdentifierTracker::new(vec![]);
    let first = tracker.new_unused_identifier("D");
    let second = tracker.new_unused_identifier("D");
    let third = tracker.new_unused_identifier("D");
    assert_ne!(first, second);
    assert_ne!(second, third);
    assert_ne!(first, third);
}

#[test]
fn reserved_names_are_not_handed_out_twice() {
    let mut tracker = IdentifierTracker::new(vec!["D"]);
    let first = tracker.new_unused_identifier("D");
    assert_eq!(first, "D");
    // The verbatim result is recorded, so a repeat never collides.
    let second = tracker.new_unused_identifier("D");
    assert_ne!(second, "D");
    let third = tracker.new_unused_identifier("D");
    assert_ne!(third, second);
    assert_ne!(third, "D");
}
