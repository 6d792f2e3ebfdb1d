use ferdle::letters::{cleanse_guess, is_letter, to_lower_letter, words_equal};

fn w(s: &str) -> Vec<char> {
    s.chars().collect()
}

#[test]
fn cleanse_lowercases_and_strips_brackets() {
    assert_eq!(cleanse_guess(&w("[M][A][N][G][O]")), w("mango"));
}

#[test]
fn cleanse_trims_whitespace() {
    assert_eq!(cleanse_guess(&w("  mango \n")), w("mango"));
    assert_eq!(cleanse_guess(&w("\t [m]ango\r")), w("mango"));
}

#[test]
fn cleanse_leaves_clean_words_alone() {
    assert_eq!(cleanse_guess(&w("mango")), w("mango"));
    let once = cleanse_guess(&w(" [M]ANGO "));
    assert_eq!(cleanse_guess(&once), once);
}

#[test]
fn cleanse_of_only_noise_is_empty() {
    assert_eq!(cleanse_guess(&w("[]  [] ")), w(""));
    assert_eq!(cleanse_guess(&w("")), w(""));
}

#[test]
fn to_lower_letter_maps_only_uppercase() {
    assert_eq!(to_lower_letter('A'), 'a');
    assert_eq!(to_lower_letter('Z'), 'z');
    assert_eq!(to_lower_letter('m'), 'm');
    assert_eq!(to_lower_letter('7'), '7');
    assert_eq!(to_lower_letter('['), '[');
}

#[test]
fn is_letter_accepts_both_cases_only() {
    assert!(is_letter('a'));
    assert!(is_letter('Q'));
    assert!(!is_letter('7'));
    assert!(!is_letter(' '));
    assert!(!is_letter('['));
}

#[test]
fn words_equal_is_exact() {
    assert!(words_equal(&w("mango"), &w("mango")));
    assert!(!words_equal(&w("mango"), &w("mangos")));
    assert!(!words_equal(&w("mango"), &w("manga")));
    assert!(words_equal(&w(""), &w("")));
}
