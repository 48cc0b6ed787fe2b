use wordle_filter::app::App;

fn word_list() -> Vec<String> {
    vec![
        String::from("video"),
        String::from("vital"),
        String::from("vote"),
        String::from("allow"),
        String::from("virus"),
    ]
}

#[test]
fn eligible_words_keeps_matching_words_in_order() {
    let app = App::new(word_list());
    let eligible = app.eligible_words(&Some(String::from("vi___")), &None, &None);
    assert_eq!(
        eligible,
        vec![String::from("video"), String::from("vital"), String::from("virus")]
    );
}

#[test]
fn eligible_words_with_absent_evidence_keeps_everything() {
    let app = App::new(word_list());
    let eligible = app.eligible_words(&None, &None, &None);
    assert_eq!(eligible, word_list());
}

#[test]
fn eligible_words_combines_all_three_evidences() {
    let app = App::new(word_list());
    let eligible = app.eligible_words(
        &Some(String::from("v____")),
        &Some(String::from("i")),
        &Some(String::from("o")),
    );
    assert_eq!(eligible, vec![String::from("vital"), String::from("virus")]);
}

#[test]
fn filtering_twice_gives_identical_results() {
    let app = App::new(word_list());
    let correct = Some(String::from("v____"));
    let wrong = Some(String::from("i"));
    let invalid = Some(String::from("o"));
    let once = app.eligible_words(&correct, &wrong, &invalid);
    let again = app.eligible_words(&correct, &wrong, &invalid);
    assert_eq!(once, again);

    // Filtering the filtered list again changes nothing.
    let refiltered = App::new(once.clone()).eligible_words(&correct, &wrong, &invalid);
    assert_eq!(refiltered, once);
}

#[test]
fn random_word_comes_from_the_list() {
    let app = App::new(word_list());
    for _ in 0..20 {
        let word = app.random_word();
        assert!(word_list().contains(word));
    }

    let single = App::new(vec![String::from("video")]);
    assert_eq!(single.random_word(), "video");
}

#[test]
fn random_words_samples_distinct_words_without_replacement() {
    let app = App::new(word_list());
    let sample = app.random_words(5).expect("five distinct words exist");
    assert_eq!(sample.len(), 5);
    let mut sorted = sample.clone();
    sorted.sort();
    let mut expected = word_list();
    expected.sort();
    assert_eq!(sorted, expected);

    for _ in 0..20 {
        let sample = app.random_words(2).expect("two distinct words exist");
        assert_eq!(sample.len(), 2);
        assert_ne!(sample[0], sample[1]);
        assert!(word_list().contains(&sample[0]));
        assert!(word_list().contains(&sample[1]));
    }
}

#[test]
fn random_words_refuses_a_count_beyond_the_distinct_population() {
    let app = App::new(word_list());
    assert!(app.random_words(6).is_none());

    // Duplicates in the list do not raise the distinct population.
    let doubled = App::new(vec![
        String::from("video"),
        String::from("video"),
        String::from("vote"),
    ]);
    assert!(doubled.random_words(3).is_none());
    assert!(doubled.random_words(2).is_some());

    let empty = App::new(Vec::new());
    assert!(empty.random_words(1).is_none());
    assert_eq!(empty.random_words(0), Some(Vec::new()));
}
