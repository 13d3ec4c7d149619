use hujingzhi::get_counter;
use hujingzhi::naming::{make_random_word, pick_word, unique_name};

#[test]
fn counter_counts_up_from_its_value() {
    let mut counter: usize = 0;
    assert_eq!(get_counter(&mut counter), 0);
    assert_eq!(get_counter(&mut counter), 1);
    assert_eq!(get_counter(&mut counter), 2);
    assert_eq!(counter, 3);
}

#[test]
fn counter_wraps_at_the_end() {
    let mut counter: usize = usize::MAX;
    assert_eq!(get_counter(&mut counter), usize::MAX);
    assert_eq!(counter, 0);
}

#[test]
fn name_joins_word_counter_and_pid() {
    assert_eq!(unique_name("brave-otter", 7, Some(4242)), "brave-otter-7-4242");
    assert_eq!(unique_name("brave-otter", 0, None), "brave-otter-0-4294967295");
}

#[test]
fn picked_word_joins_adjective_and_noun() {
    let adjectives = vec!["brave".to_string(), "calm".to_string()];
    let nouns = vec!["otter".to_string(), "heron".to_string(), "lynx".to_string()];
    assert_eq!(pick_word(&adjectives, &nouns, 1, 2), "calm-lynx");
    assert_eq!(pick_word(&adjectives, &nouns, 0, 0), "brave-otter");
}

#[test]
fn random_word_comes_from_the_dictionary() {
    let adjectives = vec!["brave".to_string(), "calm".to_string()];
    let nouns = vec!["otter".to_string(), "heron".to_string(), "lynx".to_string()];
    let mut all = Vec::new();
    for a in &adjectives {
        for n in &nouns {
            all.push(format!("{}-{}", a, n));
        }
    }
    let mut seen = std::collections::HashSet::new();
    for _ in 0..200 {
        let word = make_random_word(&adjectives, &nouns);
        assert!(all.contains(&word));
        seen.insert(word);
    }
    assert!(seen.len() > 1);
}
