use gallry_puzzle_soulver::word_list::parse_word_list;
use gallry_puzzle_soulver::{Slot, WordGenerator};
use std::collections::HashSet;

fn three_by_three() -> Vec<Slot> {
    vec![
        Slot::new(vec!['c', 'b', 'r']),
        Slot::new(vec!['a', 'i', 'o']),
        Slot::new(vec!['t', 's', 'e']),
    ]
}

fn set_of(words: &[&str]) -> HashSet<String> {
    words.iter().map(|w| w.to_string()).collect()
}

#[test]
fn test_to_string() {
    let slot = Slot::new(vec!['a', 'b', 'c']);
    assert_eq!(slot.to_string(), "a");
}

#[test]
fn test_deref() {
    let slot = Slot::new(vec!['a', 'b', 'c']);
    assert_eq!(slot.representative(), 'a');
}

#[test]
fn test_iterator() {
    let slot = Slot::new(vec!['a', 'b', 'c']);
    assert_eq!(slot.chars(), vec!['a', 'b', 'c']);
}

#[test]
fn test_generate() {
    // Use with_no_filtering to test without word filtering
    let word_generator = WordGenerator::with_no_filtering(three_by_three());

    let expected_words = vec![
        "cat".to_string(), "cas".to_string(), "cae".to_string(),
        "cit".to_string(), "cis".to_string(), "cie".to_string(),
        "cot".to_string(), "cos".to_string(), "coe".to_string(),
        "bat".to_string(), "bas".to_string(), "bae".to_string(),
        "bit".to_string(), "bis".to_string(), "bie".to_string(),
        "bot".to_string(), "bos".to_string(), "boe".to_string(),
        "rat".to_string(), "ras".to_string(), "rae".to_string(),
        "rit".to_string(), "ris".to_string(), "rie".to_string(),
        "rot".to_string(), "ros".to_string(), "roe".to_string()
    ];

    let generated_words = word_generator.get_words();
    assert_eq!(generated_words, expected_words);
}

#[test]
fn test_get_words_with_filtering() {
    // Create a list of allowed words
    let word_list: HashSet<String> = [
        "cat".to_string(),
        "bot".to_string(),
        "rie".to_string(),
    ].into_iter().collect();

    // Create a generator with custom word list
    let word_generator = WordGenerator::new(three_by_three(), Some(word_list.clone()));

    // Only words in the word list should be returned
    let mut generated_words = word_generator.get_words();
    generated_words.sort();

    let mut expected_words = word_list.into_iter().collect::<Vec<_>>();
    expected_words.sort();

    assert_eq!(generated_words, expected_words);
}

#[test]
fn test_embedded_wordlist() {
    // Use default constructor with embedded wordlist
    let word_generator = WordGenerator::with_slots(three_by_three());

    let words = word_generator.get_words();

    assert!(words.contains(&"cat".to_string()), "Embedded wordlist should include 'cat'");
    assert!(words.contains(&"bat".to_string()), "Embedded wordlist should include 'bat'");

    let non_words = word_generator.get_all_words().iter()
        .filter(|w| !words.contains(w))
        .cloned()
        .collect::<Vec<_>>();

    assert!(!non_words.is_empty(), "Some generated words should be filtered out by the wordlist");
}

#[test]
fn count_is_product_of_slot_sizes() {
    let generator = WordGenerator::with_no_filtering(vec![
        Slot::new(vec!['a', 'b']),
        Slot::new(vec!['c', 'd', 'e']),
        Slot::new(vec!['f', 'g', 'h', 'i']),
    ]);
    let all = generator.get_all_words();
    assert_eq!(all.len(), 24);
    assert!(all.iter().all(|w| w.chars().count() == 3));
    assert_eq!(generator.get_words(), all);
}

#[test]
fn odometer_order_first_and_last() {
    let generator = WordGenerator::with_slots(three_by_three());
    let mut it = generator.all_combinations();
    let mut out = Vec::new();
    while let Some(w) = it.next() {
        out.push(w);
    }
    assert_eq!(&out[..3], &["cat".to_string(), "cas".to_string(), "cae".to_string()]);
    assert_eq!(out.len(), 27);
    assert_eq!(out[26], "roe");
    assert_eq!(it.next(), None);
}

#[test]
fn explicit_empty_list_disables_filter() {
    let filtered = WordGenerator::new(three_by_three(), Some(HashSet::new()));
    let unfiltered = WordGenerator::with_no_filtering(three_by_three());
    assert_eq!(filtered.get_words(), unfiltered.get_all_words());
}

#[test]
fn filtered_output_is_ordered_subset() {
    let generator = WordGenerator::new(three_by_three(), Some(set_of(&["rie", "zzz", "cat", "bot"])));
    let words = generator.get_words();
    assert_eq!(words, vec!["cat".to_string(), "bot".to_string(), "rie".to_string()]);
    let all = generator.get_all_words();
    let positions: Vec<usize> = words.iter().map(|w| all.iter().position(|a| a == w).unwrap()).collect();
    assert!(positions.windows(2).all(|p| p[0] < p[1]));
}

#[test]
fn same_configuration_same_output() {
    let a = WordGenerator::with_slots(three_by_three());
    let b = WordGenerator::with_slots(three_by_three());
    assert_eq!(a.get_words(), b.get_words());
    assert_eq!(a.get_all_words(), b.get_all_words());
}

#[test]
fn empty_slot_gives_nothing() {
    let slots = vec![Slot::new(vec!['a']), Slot::new(vec![]), Slot::new(vec!['b'])];
    let generator = WordGenerator::with_no_filtering(slots.clone());
    assert!(generator.get_all_words().is_empty());
    assert!(generator.get_words().is_empty());
    assert_eq!(generator.all_combinations().next(), None);
    let filtered = WordGenerator::with_slots(slots);
    assert_eq!(filtered.iter().next(), None);
}

#[test]
fn cat_and_dog_scenario() {
    let slots = vec![
        Slot::new(vec!['c', 'd']),
        Slot::new(vec!['a', 'o']),
        Slot::new(vec!['t', 'g']),
    ];
    let generator = WordGenerator::new(slots, Some(set_of(&["cat", "dog"])));
    let found: HashSet<String> = generator.get_words().into_iter().collect();
    assert_eq!(found, set_of(&["cat", "dog"]));
    assert_eq!(
        generator.get_all_words(),
        vec!["cat", "cag", "cot", "cog", "dat", "dag", "dot", "dog"]
    );
}

#[test]
fn zero_slots_give_one_empty_word() {
    let generator = WordGenerator::with_no_filtering(vec![]);
    assert_eq!(generator.get_all_words(), vec![String::new()]);
    assert_eq!(generator.get_words(), vec![String::new()]);
}

#[test]
fn duplicate_candidates_are_kept() {
    let generator = WordGenerator::with_no_filtering(vec![
        Slot::new(vec!['a', 'a']),
        Slot::new(vec!['b']),
    ]);
    assert_eq!(generator.get_all_words(), vec!["ab", "ab"]);
}

#[test]
fn filtering_is_case_sensitive() {
    let generator = WordGenerator::new(
        vec![Slot::new(vec!['C', 'c']), Slot::new(vec!['a']), Slot::new(vec!['t'])],
        Some(set_of(&["cat"])),
    );
    assert_eq!(generator.get_words(), vec!["cat"]);
}

#[test]
fn word_iter_matches_get_words() {
    let generator = WordGenerator::new(three_by_three(), Some(set_of(&["cat", "bot", "rie"])));
    let mut it = generator.iter();
    assert_eq!(it.next(), Some("cat".to_string()));
    assert_eq!(it.next(), Some("bot".to_string()));
    assert_eq!(it.next(), Some("rie".to_string()));
    assert_eq!(it.next(), None);
    assert_eq!(it.next(), None);
}

#[test]
fn set_word_list_replaces_and_empty_disables() {
    let mut generator = WordGenerator::with_no_filtering(three_by_three());
    generator.set_word_list(set_of(&["cat"]));
    assert_eq!(generator.get_words(), vec!["cat"]);
    generator.set_word_list(HashSet::new());
    assert_eq!(generator.get_words().len(), 27);
}

#[test]
fn word_list_from_text() {
    let mut generator = WordGenerator::with_no_filtering(three_by_three());
    generator.set_word_list_from_text("roe\r\ncat\nbit \n");
    assert_eq!(generator.get_words(), vec!["cat", "roe"]);
    generator.set_word_list_from_text("");
    assert_eq!(generator.get_words().len(), 27);
}

#[test]
fn parse_word_list_splits_lines() {
    assert_eq!(parse_word_list("cat\ndog\n"), set_of(&["cat", "dog"]));
    assert_eq!(parse_word_list("cat\r\ndog"), set_of(&["cat", "dog"]));
    assert_eq!(parse_word_list("cat\n\ndog\r"), set_of(&["cat", "", "dog\r"]));
    assert_eq!(parse_word_list(" cat \ncat"), set_of(&[" cat ", "cat"]));
    assert!(parse_word_list("").is_empty());
    assert_eq!(parse_word_list("\n"), set_of(&[""]));
}

#[test]
fn slot_accessors() {
    let slot = Slot::new(vec!['x', 'y']);
    assert_eq!(slot.len(), 2);
    assert_eq!(slot.get(1), 'y');
    assert_eq!(Slot::new(vec!['q']).to_string(), "q");
}
