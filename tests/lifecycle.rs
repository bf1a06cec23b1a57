use wordle_api::engine::MatchType;
use wordle_api::game::{
    after_write, create_game, is_valid_guess, random_answer, submit_guess, Game, GuessError,
    NextStep, MAX_WRITES,
};

fn vocabulary() -> Vec<String> {
    ["camel", "shout", "mower", "owler", "vegan", "moral"]
        .iter()
        .map(|w| w.to_string())
        .collect()
}

fn fresh(word: &str) -> Game {
    Game {
        word: String::from(word),
        goes: 0,
        solved: false,
    }
}

#[test]
fn valid_guess_is_counted() {
    let mut game = fresh("mower");
    let answer = submit_guess(&mut game, "owler", &vocabulary()).unwrap();
    assert!(!answer.solved);
    assert_eq!(answer.goes, 1);
    assert_eq!(game.goes, 1);
    assert!(!game.solved);
    assert_eq!(game.word, "mower");
    let kinds: Vec<MatchType> = answer.evaluation.iter().map(|x| x.match_type).collect();
    assert_eq!(
        kinds,
        vec![
            MatchType::Partial,
            MatchType::Partial,
            MatchType::Absent,
            MatchType::Perfect,
            MatchType::Perfect,
        ]
    );
}

#[test]
fn attempts_are_counted_one_per_guess() {
    let mut game = fresh("camel");
    assert_eq!(game.goes, 0);
    for (k, guess) in ["shout", "mower", "vegan"].iter().enumerate() {
        submit_guess(&mut game, guess, &vocabulary()).unwrap();
        assert_eq!(game.goes, k + 1);
        assert!(!game.solved);
    }
    let answer = submit_guess(&mut game, "camel", &vocabulary()).unwrap();
    assert!(answer.solved);
    assert_eq!(answer.answer, Some(String::from("camel")));
    assert_eq!(game.goes, 4);
    assert!(game.solved);
}

#[test]
fn solved_game_is_left_unchanged() {
    let mut game = Game {
        word: String::from("camel"),
        goes: 3,
        solved: true,
    };
    let answer = submit_guess(&mut game, "shout", &vocabulary()).unwrap();
    assert!(answer.solved);
    assert_eq!(answer.answer, Some(String::from("camel")));
    assert_eq!(answer.guess, "shout");
    assert_eq!(answer.goes, 3);
    assert!(answer.evaluation.is_empty());
    assert_eq!(game.goes, 3);
    assert!(game.solved);
    // not even an unknown word is turned away
    let again = submit_guess(&mut game, "zzzzz", &vocabulary()).unwrap();
    assert_eq!(again.goes, 3);
    assert_eq!(game.goes, 3);
}

#[test]
fn unknown_word_is_invalid() {
    let mut game = fresh("camel");
    let result = submit_guess(&mut game, "zzzzz", &vocabulary());
    assert!(matches!(result, Err(GuessError::InvalidGuess)));
    assert_eq!(game.goes, 0);
    assert!(!game.solved);
}

#[test]
fn wrong_length_is_invalid() {
    let mut game = fresh("camel");
    let mut words = vocabulary();
    words.push(String::from("cam"));
    let result = submit_guess(&mut game, "cam", &words);
    assert!(matches!(result, Err(GuessError::InvalidGuess)));
    assert_eq!(game.goes, 0);
}

#[test]
fn vocabulary_membership() {
    assert!(is_valid_guess(&vocabulary(), "vegan"));
    assert!(!is_valid_guess(&vocabulary(), "vega"));
    assert!(!is_valid_guess(&Vec::new(), "vegan"));
}

#[test]
fn random_answer_is_from_the_list() {
    let words = vocabulary();
    for _ in 0..50 {
        let w = random_answer(&words);
        assert!(words.contains(&w));
    }
    let single = vec![String::from("moral")];
    assert_eq!(random_answer(&single), "moral");
}

#[test]
fn created_game_is_fresh() {
    let words = vocabulary();
    let (id, game) = create_game(&words);
    assert_eq!(id.chars().count(), 36);
    assert_eq!(id.matches('-').count(), 4);
    assert!(words.contains(&game.word));
    assert_eq!(game.goes, 0);
    assert!(!game.solved);
    let (other, _) = create_game(&words);
    assert_ne!(id, other);
}

#[test]
fn store_conflicts_are_retried_then_given_up() {
    assert_eq!(after_write(false, 1), NextStep::Done);
    assert_eq!(after_write(false, MAX_WRITES), NextStep::Done);
    assert_eq!(after_write(true, 1), NextStep::Retry);
    assert_eq!(after_write(true, MAX_WRITES - 1), NextStep::Retry);
    assert_eq!(after_write(true, MAX_WRITES), NextStep::GiveUp);
}
