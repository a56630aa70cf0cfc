use hangman::game::{apply_guess, build_game, describe_game, GuessError};
use hangman::{CreateGameResponse, Game, GameResponse, UpdateGameResponse};

fn play(game: &mut Game, letter: &str) -> Result<UpdateGameResponse, GuessError> {
    apply_guess(game, letter.to_string())
}

fn finalize(response: UpdateGameResponse) -> (bool, String, String) {
    match response {
        UpdateGameResponse::Finalize { victory, message, word } => (victory, message, word),
        UpdateGameResponse::Update(_) => panic!("the game should be over"),
    }
}

fn update(response: UpdateGameResponse) -> (String, i32) {
    match response {
        UpdateGameResponse::Update(GameResponse { word, guesses }) => (word, guesses),
        UpdateGameResponse::Finalize { .. } => panic!("the game should go on"),
    }
}

#[test]
fn new_game_is_fully_masked() {
    let game = Game::new("APPLE".to_string());
    assert_eq!(game.masked_word(), "*****");
    assert_eq!(game.guesses_remaining(), 7);
    assert!(!game.is_won());
    assert!(!game.is_lost());
}

#[test]
fn correct_letters_are_revealed_everywhere() {
    let mut game = Game::new("APPLE".to_string());
    update(play(&mut game, "P").unwrap());
    assert_eq!(game.masked_word(), "*PP**");
    for c in ["A", "L"] {
        update(play(&mut game, c).unwrap());
    }
    assert!(!game.is_won());
    finalize(play(&mut game, "E").unwrap());
    assert_eq!(game.masked_word(), "APPLE");
    assert!(game.is_won());
}

#[test]
fn seven_wrong_letters_lose() {
    let mut game = Game::new("APPLE".to_string());
    for (i, c) in ["B", "C", "D", "F", "G", "H", "I"].iter().enumerate() {
        assert!(!game.is_lost());
        let _ = play(&mut game, c).unwrap();
        assert_eq!(game.guesses_remaining(), 6 - i as i32);
    }
    assert!(game.is_lost());
    assert_eq!(game.guesses_remaining(), 0);
}

#[test]
fn create_response_describes_the_game() {
    let mut game = Game::new("BERRY".to_string());
    update(play(&mut game, "r").unwrap());
    let id = uuid::Uuid::nil();
    let response = CreateGameResponse::new(id, &game);
    assert_eq!(response.id, id);
    assert_eq!(response.word, "**RR*");
    assert_eq!(response.guesses, 7);
}

#[test]
fn illegal_guesses_are_refused() {
    let mut game = Game::new("APPLE".to_string());
    assert!(matches!(play(&mut game, "AB"), Err(GuessError::IllegalGuess(l)) if l == "AB"));
    assert!(matches!(play(&mut game, ""), Err(GuessError::IllegalGuess(_))));
    assert!(matches!(play(&mut game, "é"), Err(GuessError::IllegalGuess(_))));
    assert_eq!(game.masked_word(), "*****");
}

#[test]
fn duplicate_guesses_are_refused() {
    let mut game = Game::new("APPLE".to_string());
    assert_eq!(update(play(&mut game, "p").unwrap()), ("*PP**".to_string(), 7));
    assert!(matches!(play(&mut game, "P"), Err(GuessError::DuplicateGuess(l)) if l == "P"));
    assert_eq!(update(play(&mut game, "z").unwrap()), ("*PP**".to_string(), 6));
    assert!(matches!(play(&mut game, "Z"), Err(GuessError::DuplicateGuess(_))));
}

#[test]
fn winning_with_three_left_is_flawless() {
    let mut game = Game::new("APPLE".to_string());
    for c in ["A", "P", "L"] {
        update(play(&mut game, c).unwrap());
    }
    let (victory, message, word) = finalize(play(&mut game, "E").unwrap());
    assert!(victory);
    assert_eq!(message, "FLAWLESS VICTORY!");
    assert_eq!(word, "APPLE");
    let (victory, message, _) = finalize(play(&mut game, "Q").unwrap());
    assert!(victory);
    assert_eq!(message, "I said you won! Stop rubbing it in. >.<");
}

#[test]
fn winning_late_is_plain_victory() {
    let mut game = Game::new("APPLE".to_string());
    for c in ["B", "C", "D", "F", "G"] {
        update(play(&mut game, c).unwrap());
    }
    for c in ["A", "P", "L"] {
        update(play(&mut game, c).unwrap());
    }
    let (victory, message, _) = finalize(play(&mut game, "E").unwrap());
    assert!(victory);
    assert_eq!(message, "Victory is yours!");
}

#[test]
fn seventh_wrong_guess_hangs_the_player() {
    let mut game = Game::new("APPLE".to_string());
    for c in ["B", "C", "D", "F", "G", "H"] {
        update(play(&mut game, c).unwrap());
    }
    let (victory, message, word) = finalize(play(&mut game, "I").unwrap());
    assert!(!victory);
    assert_eq!(message, "Sorry, friend. You've been hanged!");
    assert_eq!(word, "APPLE");
    let (victory, message, _) = finalize(play(&mut game, "J").unwrap());
    assert!(!victory);
    assert_eq!(message, "Better luck next time!");
}

#[test]
fn responses_carry_their_parts() {
    let (victory, message, word) = finalize(UpdateGameResponse::win("APPLE", "well done"));
    assert!(victory);
    assert_eq!((message.as_str(), word.as_str()), ("well done", "APPLE"));
    let (victory, _, _) = finalize(UpdateGameResponse::lose("APPLE", "too bad"));
    assert!(!victory);
    let game = Game::new("KIWIS".to_string());
    assert_eq!(update(UpdateGameResponse::update(&game)), ("*****".to_string(), 7));
}

#[test]
fn built_game_uses_a_listed_word() {
    let words: Vec<String> = ["APPLE", "GRAPE", "BERRY"].iter().map(|w| w.to_string()).collect();
    for seed in 0..20 {
        let mut rng = squirrel_rng::SquirrelRng::with_seed(seed);
        let game = build_game(&words, &mut rng);
        assert!(words.contains(&game.word));
        assert_eq!(game.masked_word(), "*****");
        assert_eq!(game.guesses_remaining(), 7);
    }
}

#[test]
fn stored_game_is_described_by_its_state() {
    let mut game = Game::new("KIWIS".to_string());
    assert_eq!(update(describe_game(&game)), ("*****".to_string(), 7));
    for c in ["K", "I", "W", "S"] {
        let _ = play(&mut game, c).unwrap();
    }
    let (victory, message, _) = finalize(describe_game(&game));
    assert!(victory);
    assert_eq!(message, "I said you won! Stop rubbing it in. >.<");

    let mut lost = Game::new("KIWIS".to_string());
    for c in ["A", "B", "C", "D", "E", "F", "G"] {
        let _ = play(&mut lost, c).unwrap();
    }
    let (victory, message, word) = finalize(describe_game(&lost));
    assert!(!victory);
    assert_eq!(message, "Better luck next time!");
    assert_eq!(word, "KIWIS");
}
