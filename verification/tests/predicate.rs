use wordle_filter::predicate::WordlePredicate;

#[test]
fn wordle_predicate_should_match_words_that_contain_wrong_position_characters() {
    let wrong_positions = Some(String::from("iv"));
    let correct_positions = None;
    let invalid_letters = None;
    let predicate = WordlePredicate::new(wrong_positions, correct_positions, invalid_letters);

    // Valid words
    assert!(predicate.matches("video"));
    assert!(predicate.matches("ivey"));
    assert!(predicate.matches("iv"));
    assert!(predicate.matches("valid"));

    // Invalid words
    assert!(!predicate.matches("test"));
    assert!(!predicate.matches("nope"));
    assert!(!predicate.matches("false"));
}

#[test]
fn wordle_predicate_should_match_words_that_contain_duplicate_wrong_position_characters() {
    let wrong_positions = Some(String::from("ll"));
    let correct_positions = None;
    let invalid_letters = None;
    let predicate = WordlePredicate::new(wrong_positions, correct_positions, invalid_letters);

    // Valid words
    assert!(predicate.matches("allow"));
    assert!(predicate.matches("all over"));

    // Invalid words
    assert!(!predicate.matches("almost"));
    assert!(!predicate.matches("alto"));
    assert!(!predicate.matches("false"));
}

#[test]
fn wordle_predicate_should_match_words_that_contain_correct_position_characters() {
    let wrong_positions = None;
    let correct_positions = Some(String::from("vi___"));
    let invalid_letters = None;
    let predicate = WordlePredicate::new(wrong_positions, correct_positions, invalid_letters);

    // Valid words
    assert!(predicate.matches("video"));
    assert!(predicate.matches("virus"));
    assert!(predicate.matches("vital"));

    // Invalid words
    assert!(!predicate.matches("vote"));
    assert!(!predicate.matches("nope"));
    assert!(!predicate.matches("false"));
}

#[test]
fn wordle_predicate_should_match_words_that_contain_correct_and_wrong_position_characters() {
    let wrong_positions = Some(String::from("ll"));
    let correct_positions = Some(String::from("a____"));
    let invalid_letters = None;
    let predicate = WordlePredicate::new(wrong_positions, correct_positions, invalid_letters);

    // Valid words
    assert!(predicate.matches("allow"));
    assert!(predicate.matches("all"));

    // Invalid words
    assert!(!predicate.matches("almost"));
    assert!(!predicate.matches("false"));
}

#[test]
fn absent_evidence_matches_every_word() {
    let predicate = WordlePredicate::new(None, None, None);
    assert!(predicate.matches("video"));
    assert!(predicate.matches("all over"));
    assert!(predicate.matches(""));
    assert!(predicate.matches("___"));
}

#[test]
fn empty_word_fails_any_required_letter() {
    let predicate = WordlePredicate::new(Some(String::from("a")), None, None);
    assert!(!predicate.matches(""));

    let predicate = WordlePredicate::new(Some(String::from("ll")), None, None);
    assert!(!predicate.matches(""));
}

#[test]
fn empty_evidence_strings_constrain_nothing() {
    let predicate = WordlePredicate::new(
        Some(String::from("")),
        Some(String::from("")),
        Some(String::from("")),
    );
    assert!(predicate.matches("video"));
    assert!(predicate.matches(""));
}

#[test]
fn forbidden_letter_rejects_regardless_of_count() {
    let predicate = WordlePredicate::new(None, None, Some(String::from("x")));
    assert!(!predicate.matches("boxer"));
    assert!(!predicate.matches("xerox"));
    assert!(!predicate.matches("x"));
    assert!(predicate.matches("boner"));

    // Multiplicity of the evidence itself is irrelevant too.
    let predicate = WordlePredicate::new(None, None, Some(String::from("xxx")));
    assert!(!predicate.matches("boxer"));
    assert!(predicate.matches("boner"));
}

#[test]
fn correct_positions_template_is_placeholder_tolerant() {
    let predicate = WordlePredicate::new(None, Some(String::from("vi___")), None);
    assert!(predicate.matches("virus"));
    assert!(!predicate.matches("nope"));
    // A word shorter than the template is only checked on the positions it has.
    assert!(predicate.matches("vi"));
    assert!(predicate.matches("v"));
    // A word longer than the template is unconstrained past the template.
    assert!(predicate.matches("visitors"));
}

#[test]
fn combined_evidence_is_conjunctive() {
    let both = WordlePredicate::new(Some(String::from("ll")), Some(String::from("a____")), None);
    let only_wrong = WordlePredicate::new(Some(String::from("ll")), None, None);
    let only_correct = WordlePredicate::new(None, Some(String::from("a____")), None);

    // "allow" satisfies both pieces, so it satisfies the conjunction.
    assert!(only_wrong.matches("allow"));
    assert!(only_correct.matches("allow"));
    assert!(both.matches("allow"));

    // "llama" has two l's but starts with an l, not an a.
    assert!(only_wrong.matches("llama"));
    assert!(!only_correct.matches("llama"));
    assert!(!both.matches("llama"));

    // "apple" starts with an a but has only one l.
    assert!(!only_wrong.matches("apple"));
    assert!(only_correct.matches("apple"));
    assert!(!both.matches("apple"));
}

#[test]
fn wrong_position_scenario_iv() {
    let predicate = WordlePredicate::new(Some(String::from("iv")), None, None);
    assert!(predicate.matches("video"));
    assert!(!predicate.matches("test"));
}

#[test]
fn correct_position_scenario_vi() {
    let predicate = WordlePredicate::new(None, Some(String::from("vi___")), None);
    assert!(predicate.matches("virus"));
    assert!(!predicate.matches("nope"));
}

#[test]
fn invalid_letter_scenario_x() {
    let predicate = WordlePredicate::new(None, None, Some(String::from("x")));
    assert!(!predicate.matches("boxer"));
    assert!(predicate.matches("boner"));
}

#[test]
fn count_occurrences_gives_exact_counts() {
    let word: Vec<char> = vec!['a', 'l', 'l', 'o', 'w'];
    assert_eq!(wordle_filter::predicate::count_occurrences(&word, 'l'), 2);
    assert_eq!(wordle_filter::predicate::count_occurrences(&word, 'a'), 1);
    assert_eq!(wordle_filter::predicate::count_occurrences(&word, 'z'), 0);
    let empty: Vec<char> = Vec::new();
    assert_eq!(wordle_filter::predicate::count_occurrences(&empty, 'a'), 0);
}
