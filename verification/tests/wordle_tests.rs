use tiny_basic::wordle::{Game, GameError, GameStatus, Letter, Word};

#[test]
fn a_new_word_is_empty() {
    let word = Word::new();
    assert!(word.letters().is_empty());
    assert_eq!(word.to_string(), "");
}

#[test]
fn a_word_from_text_is_unknown() {
    let word = Word::from_str("abc").unwrap();
    assert_eq!(
        word.letters().as_slice(),
        [Letter::Unknown('a'), Letter::Unknown('b'), Letter::Unknown('c')]
    );
    assert_eq!(word.to_string(), "|_||_||_|");
}

#[test]
fn a_new_game_is_in_progress() {
    let game = Game::new("abcdefghijklmnopqrstuvwxyz", "rebus").unwrap();
    assert!(matches!(game.status, GameStatus::InProgress));
    assert_eq!(game.attempts, 0);
    assert_eq!(game.to_string(), "|_||_||_||_||_|");
}

#[test]
fn a_word_outside_the_alphabet_is_refused() {
    assert!(matches!(Game::new("abc", "abxcy"), Err(GameError::NotInAlphabet('x'))));
}

#[test]
fn a_guess_is_marked_letter_by_letter() {
    let mut game = Game::new("abcdefghijklmnopqrstuvwxyz", "rebus").unwrap();
    let word = game.guess_word("route").unwrap();
    assert_eq!(
        word.letters().as_slice(),
        [
            Letter::FullMatch('r'),
            Letter::NoMatch('o'),
            Letter::PartialMatch('u'),
            Letter::NoMatch('t'),
            Letter::PartialMatch('e'),
        ]
    );
    assert_eq!(word.to_string(), "[R]>O<(U)>T<(E)");
    assert_eq!(game.attempts, 1);
    assert!(matches!(game.status, GameStatus::InProgress));
    assert_eq!(game.to_string(), "|_||_||_||_||_|\n[R]>O<(U)>T<(E)");
}

#[test]
fn the_right_guess_wins() {
    let mut game = Game::new("abcdefghijklmnopqrstuvwxyz", "rebus").unwrap();
    game.guess_word("route").unwrap();
    let word = game.guess_word("rebus").unwrap();
    assert_eq!(word.to_string(), "[R][E][B][U][S]");
    assert!(matches!(game.status, GameStatus::Won));
    assert_eq!(game.attempts, 2);
    assert!(matches!(
        game.guess_word("rebus"),
        Err(GameError::GameIsOver(GameStatus::Won))
    ));
    assert_eq!(game.attempts, 2);
}

#[test]
fn the_fifth_wrong_guess_loses() {
    let mut game = Game::new("abc", "abc").unwrap();
    for attempt in 1..=4 {
        game.guess_word("cba").unwrap();
        assert_eq!(game.attempts, attempt);
        assert!(matches!(game.status, GameStatus::InProgress));
    }
    game.guess_word("cba").unwrap();
    assert_eq!(game.attempts, 5);
    assert!(matches!(game.status, GameStatus::Lost));
    assert!(matches!(
        game.guess_word("abc"),
        Err(GameError::GameIsOver(GameStatus::Lost))
    ));
}

#[test]
fn the_fifth_guess_still_wins_if_it_is_right() {
    let mut game = Game::new("abc", "abc").unwrap();
    for _ in 1..=4 {
        game.guess_word("cba").unwrap();
    }
    game.guess_word("abc").unwrap();
    assert!(matches!(game.status, GameStatus::Won));
}

#[test]
fn a_guess_of_the_wrong_length_is_refused() {
    let mut game = Game::new("abc", "abc").unwrap();
    assert!(matches!(
        game.guess_word("ab"),
        Err(GameError::WrongLength { expected: 3, actual: 2 })
    ));
    assert!(matches!(
        game.guess_word("abxd"),
        Err(GameError::WrongLength { expected: 3, actual: 4 })
    ));
    assert_eq!(game.attempts, 0);
}

#[test]
fn a_guess_outside_the_alphabet_is_refused() {
    let mut game = Game::new("abc", "abc").unwrap();
    assert!(matches!(game.guess_word("ayz"), Err(GameError::NotInAlphabet('y'))));
    assert_eq!(game.attempts, 0);
    assert_eq!(game.to_string(), "|_||_||_|");
}

#[test]
fn lengths_count_characters() {
    let mut game = Game::new("абвгдежз", "где").unwrap();
    let word = game.guess_word("два").unwrap();
    assert_eq!(word.to_string(), "(Д)>В<>А<");
}

#[test]
fn a_letter_may_have_a_longer_upper_case_form() {
    let mut game = Game::new("aßs", "ßa").unwrap();
    let word = game.guess_word("sß").unwrap();
    assert_eq!(word.to_string(), ">S<(SS)");
}

#[test]
fn the_empty_word_is_guessed_at_once() {
    let mut game = Game::new("", "").unwrap();
    assert_eq!(game.to_string(), "");
    let word = game.guess_word("").unwrap();
    assert_eq!(word.to_string(), "");
    assert!(matches!(game.status, GameStatus::Won));
    assert_eq!(game.to_string(), "\n");
}

#[test]
fn a_word_can_be_copied() {
    let word = Word::from_str("ab").unwrap();
    assert_eq!(word.clone().to_string(), word.to_string());
}

#[test]
fn a_letter_is_framed_by_what_is_known_of_it() {
    assert_eq!(Letter::Unknown('a').text_given("A"), "|_|");
    assert_eq!(Letter::FullMatch('a').text_given("A"), "[A]");
    assert_eq!(Letter::PartialMatch('a').text_given("xy"), "(xy)");
    assert_eq!(Letter::NoMatch('a').text_given(""), "><");
}

#[test]
fn the_getters_give_the_fields() {
    let mut game = Game::new("abc", "abc").unwrap();
    assert!(matches!(game.status(), GameStatus::InProgress));
    assert_eq!(game.attempts(), 0);
    game.guess_word("abc").unwrap();
    assert!(matches!(game.status(), GameStatus::Won));
    assert_eq!(game.attempts(), game.attempts);
    assert_eq!(game.attempts(), 1);
}
