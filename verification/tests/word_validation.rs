use word_game::word_validation::{
    candidate_pool, get_random_word, word_position, FOUR_LETTER_POOL, LONG_WORD_POOL,
    SHORT_WORD_POOL,
};

fn numbered_words(count: usize) -> Vec<String> {
    (0..count).map(|n| format!("w{:04}", n)).collect()
}

#[test]
fn test_get_from_list() {
    let words = vec![
        "apple".to_string(),
        "banana".to_string(),
        "mango".to_string(),
    ];

    let random_word_option = get_random_word(&words, 5);

    assert!(random_word_option.is_some());
    let random_word = random_word_option.unwrap();

    assert!(words.iter().any(|w| w == random_word));
}

#[test]
fn test_get_from_empty_list() {
    let empty_words: Vec<String> = vec![];
    let result = get_random_word(&empty_words, 5);

    assert_eq!(result, None);
}

#[test]
fn empty_list_gives_nothing_for_every_length() {
    let empty_words: Vec<String> = Vec::new();
    for length in 0..10 {
        assert_eq!(get_random_word(&empty_words, length), None);
        assert!(candidate_pool(&empty_words, length).is_empty());
    }
}

#[test]
fn every_pick_is_one_of_the_words() {
    let words = vec![
        "apple".to_string(),
        "banana".to_string(),
        "mango".to_string(),
    ];
    for _ in 0..200 {
        let word = get_random_word(&words, 5).unwrap();
        assert!(word == "apple" || word == "banana" || word == "mango");
    }
}

#[test]
fn a_single_word_is_always_picked() {
    let words = vec!["crane".to_string()];
    for length in 0..8 {
        assert_eq!(get_random_word(&words, length), Some("crane"));
    }
}

#[test]
fn pool_limits() {
    assert_eq!(LONG_WORD_POOL, 1000);
    assert_eq!(FOUR_LETTER_POOL, 700);
    assert_eq!(SHORT_WORD_POOL, 500);
}

#[test]
fn pool_of_a_long_list_is_its_first_words() {
    let words = numbered_words(2000);
    assert_eq!(candidate_pool(&words, 5), &words[..1000]);
    assert_eq!(candidate_pool(&words, 6), &words[..1000]);
    assert_eq!(candidate_pool(&words, 12), &words[..1000]);
    assert_eq!(candidate_pool(&words, usize::MAX), &words[..1000]);
    assert_eq!(candidate_pool(&words, 4), &words[..700]);
    assert_eq!(candidate_pool(&words, 3), &words[..500]);
    assert_eq!(candidate_pool(&words, 2), &words[..500]);
    assert_eq!(candidate_pool(&words, 1), &words[..500]);
    assert_eq!(candidate_pool(&words, 0), &words[..500]);
}

#[test]
fn pool_of_a_short_list_is_the_whole_list() {
    let words = numbered_words(499);
    for length in 0..8 {
        assert_eq!(candidate_pool(&words, length), &words[..]);
    }
    let words = numbered_words(600);
    assert_eq!(candidate_pool(&words, 3), &words[..500]);
    assert_eq!(candidate_pool(&words, 4), &words[..]);
    assert_eq!(candidate_pool(&words, 5), &words[..]);
    let words = numbered_words(800);
    assert_eq!(candidate_pool(&words, 4), &words[..700]);
    assert_eq!(candidate_pool(&words, 5), &words[..]);
}

#[test]
fn pool_at_the_limit() {
    for (length, limit) in [(5usize, 1000usize), (4, 700), (3, 500)] {
        for count in [limit - 1, limit, limit + 1] {
            let words = numbered_words(count);
            assert_eq!(candidate_pool(&words, length).len(), count.min(limit));
        }
    }
}

#[test]
fn picks_stay_inside_the_pool() {
    let words = numbered_words(2000);
    for (length, limit) in [(5usize, 1000usize), (9, 1000), (4, 700), (3, 500), (0, 500)] {
        for _ in 0..3000 {
            let word = get_random_word(&words, length).unwrap();
            let place = word_position(&words, word).unwrap();
            assert!(place < limit);
        }
    }
}

#[test]
fn picks_reach_more_than_one_word() {
    let words = numbered_words(2000);
    let first = get_random_word(&words, 5).unwrap();
    let mut other = false;
    for _ in 0..1000 {
        if get_random_word(&words, 5).unwrap() != first {
            other = true;
        }
    }
    assert!(other);
}

#[test]
fn the_pick_lies_in_the_list() {
    let words = numbered_words(50);
    for _ in 0..100 {
        let word = get_random_word(&words, 4).unwrap();
        let place = word_position(&words, word).unwrap();
        assert!(std::ptr::eq(word, words[place].as_str()));
    }
}

#[test]
fn position_is_that_of_the_first_occurrence() {
    let words = vec![
        "apple".to_string(),
        "mango".to_string(),
        "apple".to_string(),
        "angle".to_string(),
    ];
    assert_eq!(word_position(&words, "apple"), Some(0));
    assert_eq!(word_position(&words, "mango"), Some(1));
    assert_eq!(word_position(&words, "angle"), Some(3));
}

#[test]
fn position_of_a_missing_word_is_nothing() {
    let words = vec!["apple".to_string(), "mango".to_string()];
    assert_eq!(word_position(&words, "crane"), None);
    assert_eq!(word_position(&words, "appl"), None);
    assert_eq!(word_position(&words, "apples"), None);
    assert_eq!(word_position(&words, ""), None);
    assert_eq!(word_position(&[], "apple"), None);
}

#[test]
fn picks_spread_over_the_whole_pool() {
    let words = numbered_words(4);
    let mut counts = [0usize; 4];
    for _ in 0..8000 {
        let word = get_random_word(&words, 5).unwrap();
        counts[word_position(&words, word).unwrap()] += 1;
    }
    for count in counts {
        assert!(1700 < count && count < 2300, "{:?}", counts);
    }
}
