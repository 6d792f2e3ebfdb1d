use ferdle::feedback::{evaluate, Feedback};

fn w(s: &str) -> Vec<char> {
    s.chars().collect()
}

#[test]
fn scenario_anger_against_mango() {
    let fb = evaluate(&w("anger"), &w("mango"));
    assert_eq!(
        fb,
        vec![
            Feedback::Present,
            Feedback::Present,
            Feedback::Present,
            Feedback::Absent,
            Feedback::Absent,
        ]
    );
}

#[test]
fn scenario_lulls_against_allot() {
    // The secret holds two l's (positions 1 and 2); the guess holds
    // three.  The exact match at position 2 consumes one, the leading l
    // takes the other as Present, and the third l goes unmatched.
    let fb = evaluate(&w("lulls"), &w("allot"));
    assert_eq!(
        fb,
        vec![
            Feedback::Present,
            Feedback::Absent,
            Feedback::Correct,
            Feedback::Absent,
            Feedback::Absent,
        ]
    );
}

#[test]
fn two_available_duplicates_feed_first_two() {
    // Evaluation is independent of the dictionary, so the letters here
    // are arbitrary: the secret's two l's sit off the guess's l
    // positions, no position matches exactly, and the guess's three
    // l's compete for two available ones.  The first two win Present,
    // the third goes Absent.
    let fb = evaluate(&w("lulls"), &w("blowl"));
    assert_eq!(
        fb,
        vec![
            Feedback::Present,
            Feedback::Absent,
            Feedback::Present,
            Feedback::Absent,
            Feedback::Absent,
        ]
    );
}

#[test]
fn equal_guess_is_all_correct() {
    let fb = evaluate(&w("mango"), &w("mango"));
    assert_eq!(fb, vec![Feedback::Correct; 5]);
}

#[test]
fn disjoint_guess_is_all_absent() {
    let fb = evaluate(&w("built"), &w("mango"));
    assert_eq!(fb, vec![Feedback::Absent; 5]);
}

#[test]
fn surplus_duplicates_go_absent() {
    // One o in the secret, two in the guess, none placed right: exactly
    // one Present, the surplus one Absent.
    let fb = evaluate(&w("oozes"), &w("mango"));
    assert_eq!(
        fb,
        vec![
            Feedback::Present,
            Feedback::Absent,
            Feedback::Absent,
            Feedback::Absent,
            Feedback::Absent,
        ]
    );
}

#[test]
fn correct_match_not_displaced_by_presence() {
    // The n placed right keeps its Correct mark even though an earlier
    // n competes for it; the secret's single n feeds the exact match
    // first, so the earlier n goes Absent.
    let fb = evaluate(&w("ninja"), &w("mango"));
    assert_eq!(
        fb,
        vec![
            Feedback::Absent,
            Feedback::Absent,
            Feedback::Correct,
            Feedback::Absent,
            Feedback::Present,
        ]
    );
}
