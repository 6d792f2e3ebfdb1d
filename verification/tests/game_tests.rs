use ferdle::dict::Dictionary;
use ferdle::feedback::Feedback;
use ferdle::game::{Game, Outcome, SubmitError, MAX_ATTEMPTS, WORD_LENGTH};

fn w(s: &str) -> Vec<char> {
    s.chars().collect()
}

fn words(list: &[&str]) -> Vec<Vec<char>> {
    list.iter().map(|s| w(s)).collect()
}

fn new_game(secret: &str) -> Game {
    let guesses = words(&["anger", "built", "lulls", "oozes", "ninja"]);
    let answers = words(&["mango", "allot", "apple", "baker", "candy", "delta", "eagle", "fable"]);
    Game::new(w(secret), Dictionary::new(guesses, answers))
}

fn type_word(game: &mut Game, word: &str) {
    for c in word.chars() {
        game.enter_letter(c);
    }
}

#[test]
fn constants_match_the_rules() {
    assert_eq!(WORD_LENGTH, 5);
    assert_eq!(MAX_ATTEMPTS, 6);
}

#[test]
fn fresh_game_is_empty_and_in_progress() {
    let game = new_game("mango");
    assert_eq!(game.outcome(), Outcome::InProgress);
    assert_eq!(game.attempt_index(), 0);
    assert_eq!(game.board().len(), 0);
    assert_eq!(game.partial_guess().len(), 0);
    assert_eq!(game.secret(), &w("mango"));
}

#[test]
fn winning_guess_wins_on_its_attempt() {
    let mut game = new_game("mango");
    type_word(&mut game, "MANGO");
    assert_eq!(game.partial_guess(), &w("mango"));
    assert_eq!(game.submit(), Ok(()));
    assert_eq!(game.outcome(), Outcome::Won(1));
    assert_eq!(game.attempt_index(), 1);
    assert_eq!(game.board().len(), 1);
    assert_eq!(game.board()[0].letters, w("mango"));
    assert_eq!(game.board()[0].feedback, vec![Feedback::Correct; 5]);
    assert_eq!(game.partial_guess().len(), 0);
}

#[test]
fn win_on_later_attempt_carries_its_index() {
    let mut game = new_game("mango");
    type_word(&mut game, "anger");
    assert_eq!(game.submit(), Ok(()));
    type_word(&mut game, "built");
    assert_eq!(game.submit(), Ok(()));
    type_word(&mut game, "mango");
    assert_eq!(game.submit(), Ok(()));
    assert_eq!(game.outcome(), Outcome::Won(3));
    assert_eq!(game.board().len(), 3);
}

#[test]
fn six_misses_lose_the_game() {
    let mut game = new_game("mango");
    for guess in ["apple", "baker", "candy", "delta", "eagle", "fable"] {
        assert_eq!(game.outcome(), Outcome::InProgress);
        type_word(&mut game, guess);
        assert_eq!(game.submit(), Ok(()));
    }
    assert_eq!(game.outcome(), Outcome::Lost);
    assert_eq!(game.board().len(), 6);
    assert_eq!(game.attempt_index(), 6);
}

#[test]
fn unrecognized_word_is_rejected_unchanged() {
    let mut game = new_game("mango");
    type_word(&mut game, "zzzzz");
    assert_eq!(game.submit(), Err(SubmitError::NotInWordList));
    assert_eq!(game.attempt_index(), 0);
    assert_eq!(game.board().len(), 0);
    assert_eq!(game.outcome(), Outcome::InProgress);
    // the partial guess is preserved so the player can edit it
    assert_eq!(game.partial_guess(), &w("zzzzz"));
}

#[test]
fn short_guess_is_rejected_unchanged() {
    let mut game = new_game("mango");
    type_word(&mut game, "man");
    assert_eq!(game.submit(), Err(SubmitError::TooShort));
    assert_eq!(game.attempt_index(), 0);
    assert_eq!(game.partial_guess(), &w("man"));
    assert_eq!(game.outcome(), Outcome::InProgress);
}

#[test]
fn short_guess_is_rejected_at_any_attempt_index() {
    let mut game = new_game("mango");
    type_word(&mut game, "anger");
    assert_eq!(game.submit(), Ok(()));
    assert_eq!(game.attempt_index(), 1);
    game.enter_letter('a');
    assert_eq!(game.submit(), Err(SubmitError::TooShort));
    assert_eq!(game.attempt_index(), 1);
    assert_eq!(game.board().len(), 1);
}

#[test]
fn empty_submit_is_too_short() {
    let mut game = new_game("mango");
    assert_eq!(game.submit(), Err(SubmitError::TooShort));
    assert_eq!(game.attempt_index(), 0);
}

#[test]
fn finished_game_never_changes() {
    let mut game = new_game("mango");
    type_word(&mut game, "mango");
    assert_eq!(game.submit(), Ok(()));
    assert_eq!(game.outcome(), Outcome::Won(1));
    type_word(&mut game, "anger");
    assert_eq!(game.partial_guess().len(), 0);
    assert_eq!(game.submit(), Err(SubmitError::TooShort));
    assert_eq!(game.outcome(), Outcome::Won(1));
    assert_eq!(game.board().len(), 1);
    assert_eq!(game.attempt_index(), 1);
    game.backspace();
    assert_eq!(game.outcome(), Outcome::Won(1));
}

#[test]
fn enter_letter_normalizes_and_filters() {
    let mut game = new_game("mango");
    game.enter_letter('M');
    game.enter_letter('7');
    game.enter_letter(' ');
    game.enter_letter('[');
    game.enter_letter('a');
    assert_eq!(game.partial_guess(), &w("ma"));
}

#[test]
fn enter_letter_stops_at_word_length() {
    let mut game = new_game("mango");
    type_word(&mut game, "anger");
    game.enter_letter('x');
    assert_eq!(game.partial_guess(), &w("anger"));
}

#[test]
fn backspace_edits_the_partial_guess() {
    let mut game = new_game("mango");
    game.backspace();
    assert_eq!(game.partial_guess().len(), 0);
    type_word(&mut game, "man");
    game.backspace();
    assert_eq!(game.partial_guess(), &w("ma"));
}

#[test]
fn rejected_guess_can_be_edited_and_resubmitted() {
    let mut game = new_game("mango");
    type_word(&mut game, "zzzzz");
    assert_eq!(game.submit(), Err(SubmitError::NotInWordList));
    for _ in 0..5 {
        game.backspace();
    }
    type_word(&mut game, "mango");
    assert_eq!(game.submit(), Ok(()));
    assert_eq!(game.outcome(), Outcome::Won(1));
}

#[test]
fn attempt_index_never_decreases() {
    let mut game = new_game("mango");
    let mut last = game.attempt_index();
    for guess in ["anger", "zzzzz", "built", "man", "mango"] {
        type_word(&mut game, guess);
        let _ = game.submit();
        assert!(game.attempt_index() >= last);
        last = game.attempt_index();
        while game.partial_guess().len() > 0 {
            game.backspace();
        }
    }
}
