use ferdle::dict::Dictionary;

fn w(s: &str) -> Vec<char> {
    s.chars().collect()
}

fn words(list: &[&str]) -> Vec<Vec<char>> {
    list.iter().map(|s| w(s)).collect()
}

fn sample() -> Dictionary {
    Dictionary::new(words(&["anger", "built"]), words(&["mango", "allot"]))
}

#[test]
fn member_of_guess_list_is_valid() {
    assert!(sample().is_valid(&w("anger")));
}

#[test]
fn member_of_answer_list_is_valid() {
    assert!(sample().is_valid(&w("mango")));
}

#[test]
fn absent_word_is_invalid_not_a_failure() {
    assert!(!sample().is_valid(&w("zzzzz")));
    assert!(!sample().is_valid(&w("")));
    assert!(!sample().is_valid(&w("mang")));
}

#[test]
fn is_valid_twice_agrees() {
    let d = sample();
    let first = d.is_valid(&w("mango"));
    let second = d.is_valid(&w("mango"));
    assert_eq!(first, second);
    let first = d.is_valid(&w("zzzzz"));
    let second = d.is_valid(&w("zzzzz"));
    assert_eq!(first, second);
}

#[test]
fn match_is_exact_not_fuzzy() {
    let d = sample();
    assert!(!d.is_valid(&w("Anger")));
    assert!(!d.is_valid(&w("anger ")));
    assert!(!d.is_valid(&w("angers")));
}
