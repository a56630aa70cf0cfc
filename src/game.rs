//! The rules of one game: a secret word, the letters guessed right and wrong,
//! and the answers that the server sends.
use crate::chance::pick_one;
use crate::collections::{set_letters, LetterSet};
use squirrel_rng::SquirrelRng;
use uuid::Uuid;
use vstd::prelude::*;

verus! {

broadcast use vstd::string::group_string_axioms;

#[verifier::external_type_specification]
#[verifier::external_body]
pub struct ExUuid(Uuid);

/// The number of wrong guesses that loses a game.
pub const MAX_WRONG: usize = 7;

/// Every letter of the secret word was guessed.
pub open spec fn all_guessed(word: Seq<char>, correct: Set<u8>) -> bool {
    forall|i: int| 0 <= i < word.len() ==> correct.contains(#[trigger] word[i] as u8)
}

/// The secret word with each letter not yet guessed replaced by `*`.
pub open spec fn mask_of(word: Seq<char>, correct: Set<u8>) -> Seq<char> {
    word.map_values(|c: char| if correct.contains(c as u8) { c } else { '*' })
}

/// Wrong guesses left after `wrong` wrong guesses, never below zero.
pub open spec fn remaining(wrong: nat) -> int {
    if wrong >= MAX_WRONG {
        0
    } else {
        MAX_WRONG - wrong
    }
}

/// Relies on `FromIterator<char>` for `String`: the characters in order.
#[verifier::external_body]
fn string_of(chars: &Vec<char>) -> (r: String)
    ensures
        r@ == chars@,
{
    chars.iter().collect()
}

/// An ASCII character survives the round trip through its byte.
proof fn lemma_ascii_round_trip(c: char)
    requires
        (c as nat) < 128,
    ensures
        (c as u8) as char == c,
{
}

/// One game on the server.
pub struct Game {
    pub word: String,
    pub correct: LetterSet,
    pub incorrect: LetterSet,
}

impl Game {
    /// The letters guessed right.
    pub open spec fn correct_letters(&self) -> Set<u8> {
        set_letters(self.correct)
    }

    /// The letters guessed wrong.
    pub open spec fn incorrect_letters(&self) -> Set<u8> {
        set_letters(self.incorrect)
    }

    /// The secret word is ASCII, as the word list gives it.
    pub open spec fn wf(&self) -> bool {
        vstd::utf8::is_ascii_chars(self.word@)
    }

    /// A new game on `word`, with nothing guessed.
    pub fn new(word: String) -> (r: Game)
        ensures
            r.word == word,
            r.correct_letters() == Set::<u8>::empty(),
            r.incorrect_letters() == Set::<u8>::empty(),
    {
        Game { word, correct: LetterSet::new(), incorrect: LetterSet::new() }
    }

    /// The game is lost: it has seen as many wrong guesses as it allows.
    pub fn is_lost(&self) -> (r: bool)
        ensures
            r == (self.incorrect_letters().len() >= MAX_WRONG),
    {
        self.incorrect.len() >= MAX_WRONG
    }

    /// The game is won: every letter of the word was guessed.
    pub fn is_won(&self) -> (r: bool)
        requires
            self.wf(),
        ensures
            r == all_guessed(self.word@, self.correct_letters()),
    {
        let bytes = self.word.as_str().as_bytes();
        proof {
            vstd::utf8::is_ascii_chars_encode_utf8(self.word@);
        }
        let mut i: usize = 0;
        while i < bytes.len()
            invariant
                bytes@.len() == self.word@.len(),
                forall|k: int| 0 <= k < self.word@.len() ==> #[trigger] bytes@[k] == self.word@[k] as u8,
                forall|k: int| 0 <= k < i ==> self.correct_letters().contains(#[trigger] self.word@[k] as u8),
            decreases bytes@.len() - i,
        {
            if !self.correct.contains(bytes[i]) {
                return false;
            }
            i += 1;
        }
        true
    }

    /// The word as the player sees it: guessed letters shown, others `*`.
    pub fn masked_word(&self) -> (r: String)
        requires
            self.wf(),
        ensures
            r@ == mask_of(self.word@, self.correct_letters()),
    {
        let bytes = self.word.as_str().as_bytes();
        proof {
            vstd::utf8::is_ascii_chars_encode_utf8(self.word@);
            vstd::utf8::is_ascii_chars_nat_bound(self.word@);
        }
        let mut chars: Vec<char> = Vec::new();
        let mut i: usize = 0;
        while i < bytes.len()
            invariant
                i <= bytes@.len(),
                bytes@.len() == self.word@.len(),
                forall|k: int| 0 <= k < self.word@.len() ==> #[trigger] bytes@[k] == self.word@[k] as u8,
                forall|k: int| 0 <= k < self.word@.len() ==> (#[trigger] self.word@[k] as nat) < 128,
                chars@ == mask_of(self.word@, self.correct_letters()).subrange(0, i as int),
            decreases bytes@.len() - i,
        {
            let u = bytes[i];
            let c = if self.correct.contains(u) {
                u as char
            } else {
                '*'
            };
            proof {
                lemma_ascii_round_trip(self.word@[i as int]);
            }
            chars.push(c);
            proof {
                assert(chars@ =~= mask_of(self.word@, self.correct_letters()).subrange(0, i as int + 1));
            }
            i += 1;
        }
        proof {
            assert(chars@ =~= mask_of(self.word@, self.correct_letters()));
        }
        string_of(&chars)
    }

    /// Wrong guesses left, never below zero.
    pub fn guesses_remaining(&self) -> (r: i32)
        ensures
            r == remaining(self.incorrect_letters().len()),
    {
        let wrong = self.incorrect.len();
        if wrong >= MAX_WRONG {
            0
        } else {
            (MAX_WRONG - wrong) as i32
        }
    }
}

/// The answer to a new game: its id, the masked word and the wrong guesses left.
#[derive(Debug)]
pub struct CreateGameResponse {
    pub id: Uuid,
    pub word: String,
    pub guesses: i32,
}

impl CreateGameResponse {
    /// Describes `game` under `id`.
    pub fn new(id: Uuid, game: &Game) -> (r: Self)
        requires
            game.wf(),
        ensures
            r.id == id,
            r.word@ == mask_of(game.word@, game.correct_letters()),
            r.guesses == remaining(game.incorrect_letters().len()),
    {
        CreateGameResponse { id, word: game.masked_word(), guesses: game.guesses_remaining() }
    }
}

/// The state of a game in progress: the masked word and the wrong guesses left.
#[derive(Clone, Debug)]
pub struct GameResponse {
    pub word: String,
    pub guesses: i32,
}

impl GameResponse {
    /// Describes `game`.
    pub fn new(game: &Game) -> (r: Self)
        requires
            game.wf(),
        ensures
            r.word@ == mask_of(game.word@, game.correct_letters()),
            r.guesses == remaining(game.incorrect_letters().len()),
    {
        GameResponse { word: game.masked_word(), guesses: game.guesses_remaining() }
    }
}

/// The answer to a guess: the game goes on, or it is over.
#[derive(Clone, Debug)]
pub enum UpdateGameResponse {
    Update(GameResponse),
    Finalize { victory: bool, message: String, word: String },
}

/// `r` ends the game, won or lost as `victory` says, with this message and
/// secret word.
pub open spec fn is_final(r: UpdateGameResponse, victory: bool, message: Seq<char>, word: Seq<char>) -> bool {
    match r {
        UpdateGameResponse::Finalize { victory: v, message: m, word: w } => v == victory && m@
            == message && w@ == word,
        _ => false,
    }
}

/// `r` continues a game on `word` with these right letters and wrong guesses.
pub open spec fn is_update(r: UpdateGameResponse, word: Seq<char>, correct: Set<u8>, wrong: nat) -> bool {
    match r {
        UpdateGameResponse::Update(g) => g.word@ == mask_of(word, correct) && g.guesses == remaining(
            wrong,
        ),
        _ => false,
    }
}

impl UpdateGameResponse {
    /// The game goes on.
    pub fn update(game: &Game) -> (r: Self)
        requires
            game.wf(),
        ensures
            is_update(r, game.word@, game.correct_letters(), game.incorrect_letters().len()),
    {
        UpdateGameResponse::Update(GameResponse::new(game))
    }

    /// The game is won.
    pub fn win(word: &str, message: &str) -> (r: Self)
        ensures
            is_final(r, true, message@, word@),
    {
        UpdateGameResponse::Finalize { victory: true, message: message.to_owned(), word: word.to_owned() }
    }

    /// The game is lost.
    pub fn lose(word: &str, message: &str) -> (r: Self)
        ensures
            is_final(r, false, message@, word@),
    {
        UpdateGameResponse::Finalize { victory: false, message: message.to_owned(), word: word.to_owned() }
    }
}

/// Why a guess was refused.
#[derive(Clone, Debug)]
pub enum GuessError {
    /// The guess is not a single ASCII character.
    IllegalGuess(String),
    /// The letter was guessed before.
    DuplicateGuess(String),
}

/// A guess that the server accepts to look at: one ASCII character.
pub open spec fn is_single_ascii(l: Seq<char>) -> bool {
    l.len() == 1 && vstd::utf8::is_ascii_chars(l)
}

/// The ASCII uppercase form of a byte; other bytes stay.
pub open spec fn upper_byte(u: u8) -> u8 {
    if 97 <= u <= 122 {
        (u - 32) as u8
    } else {
        u
    }
}

/// The letter that a guess stands for.
pub open spec fn guess_letter(l: Seq<char>) -> u8 {
    upper_byte(l[0] as u8)
}

/// The ASCII uppercase form of a byte, as `u8::to_ascii_uppercase` gives it.
fn to_upper_byte(u: u8) -> (r: u8)
    ensures
        r == upper_byte(u),
{
    if 97 <= u && u <= 122 {
        u - 32
    } else {
        u
    }
}

/// Whether the letter `c` occurs in the secret word.
fn word_has(word: &String, c: u8) -> (r: bool)
    requires
        vstd::utf8::is_ascii_chars(word@),
    ensures
        r == (exists|i: int| 0 <= i < word@.len() && #[trigger] word@[i] as u8 == c),
{
    let bytes = word.as_str().as_bytes();
    proof {
        vstd::utf8::is_ascii_chars_encode_utf8(word@);
    }
    let mut i: usize = 0;
    while i < bytes.len()
        invariant
            bytes@.len() == word@.len(),
            forall|k: int| 0 <= k < word@.len() ==> #[trigger] bytes@[k] == word@[k] as u8,
            forall|k: int| 0 <= k < i ==> #[trigger] word@[k] as u8 != c,
        decreases bytes@.len() - i,
    {
        if bytes[i] == c {
            assert(word@[i as int] as u8 == c);
            return true;
        }
        i += 1;
    }
    false
}

/// A new game on a word drawn from the word list.
pub fn build_game(words: &[String], rng: &mut SquirrelRng) -> (r: Game)
    requires
        words@.len() > 0,
        forall|i: int| 0 <= i < words@.len() ==> vstd::utf8::is_ascii_chars(#[trigger] words@[i]@),
    ensures
        r.wf(),
        exists|i: int| 0 <= i < words@.len() && #[trigger] words@[i]@ == r.word@,
        r.correct_letters() == Set::<u8>::empty(),
        r.incorrect_letters() == Set::<u8>::empty(),
{
    let word = pick_one(words, rng).unwrap();
    proof {
        let i = choose|i: int| 0 <= i < words@.len() && words@[i] == *word;
        assert(words@[i]@ == word@);
    }
    Game::new(word.clone())
}

/// The answer about a stored game: over, lost or won, or going on.
pub fn describe_game(game: &Game) -> (r: UpdateGameResponse)
    requires
        game.wf(),
    ensures
        game.incorrect_letters().len() >= MAX_WRONG ==> is_final(
            r,
            false,
            "Better luck next time!"@,
            game.word@,
        ),
        game.incorrect_letters().len() < MAX_WRONG && all_guessed(game.word@, game.correct_letters())
            ==> is_final(r, true, "I said you won! Stop rubbing it in. >.<"@, game.word@),
        game.incorrect_letters().len() < MAX_WRONG && !all_guessed(
            game.word@,
            game.correct_letters(),
        ) ==> is_update(r, game.word@, game.correct_letters(), game.incorrect_letters().len()),
{
    if game.is_lost() {
        return UpdateGameResponse::lose(game.word.as_str(), "Better luck next time!");
    }
    if game.is_won() {
        return UpdateGameResponse::win(game.word.as_str(), "I said you won! Stop rubbing it in. >.<");
    }
    UpdateGameResponse::update(game)
}

/// Plays the guess `letter` on `game`. A guess that is not one ASCII character
/// is illegal. A game already lost or won answers so and does not change. A
/// letter guessed before is a duplicate. Otherwise the letter, in uppercase,
/// joins the right or the wrong letters, and the answer says whether that won
/// the game (flawlessly with three or more wrong guesses left), lost it, or
/// lets it go on.
pub fn apply_guess(game: &mut Game, letter: String) -> (r: Result<UpdateGameResponse, GuessError>)
    requires
        old(game).wf(),
    ensures
        final(game).wf(),
        final(game).word == old(game).word,
        ({
            let w = old(game).word@;
            let right = old(game).correct_letters();
            let wrong = old(game).incorrect_letters();
            let g = guess_letter(letter@);
            let right2 = right.insert(g);
            let wrong2 = wrong.insert(g);
            if !is_single_ascii(letter@) {
                r == Err::<UpdateGameResponse, GuessError>(GuessError::IllegalGuess(letter))
                    && final(game).correct_letters() == right
                    && final(game).incorrect_letters() == wrong
            } else if wrong.len() >= MAX_WRONG {
                (r matches Ok(u) && is_final(u, false, "Better luck next time!"@, w))
                    && final(game).correct_letters() == right
                    && final(game).incorrect_letters() == wrong
            } else if all_guessed(w, right) {
                (r matches Ok(u) && is_final(u, true, "I said you won! Stop rubbing it in. >.<"@, w))
                    && final(game).correct_letters() == right
                    && final(game).incorrect_letters() == wrong
            } else if right.contains(g) || wrong.contains(g) {
                r == Err::<UpdateGameResponse, GuessError>(GuessError::DuplicateGuess(letter))
                    && final(game).correct_letters() == right
                    && final(game).incorrect_letters() == wrong
            } else if exists|i: int| 0 <= i < w.len() && #[trigger] w[i] as u8 == g {
                &&& final(game).correct_letters() == right2
                &&& final(game).incorrect_letters() == wrong
                &&& all_guessed(w, right2) && remaining(wrong.len()) >= 3 ==> (r matches Ok(u)
                    && is_final(u, true, "FLAWLESS VICTORY!"@, w))
                &&& all_guessed(w, right2) && remaining(wrong.len()) < 3 ==> (r matches Ok(u)
                    && is_final(u, true, "Victory is yours!"@, w))
                &&& !all_guessed(w, right2) ==> (r matches Ok(u) && is_update(
                    u,
                    w,
                    right2,
                    wrong.len(),
                ))
            } else {
                &&& final(game).correct_letters() == right
                &&& final(game).incorrect_letters() == wrong2
                &&& wrong2.len() >= MAX_WRONG ==> (r matches Ok(u) && is_final(
                    u,
                    false,
                    "Sorry, friend. You've been hanged!"@,
                    w,
                ))
                &&& wrong2.len() < MAX_WRONG ==> (r matches Ok(u) && is_update(
                    u,
                    w,
                    right,
                    wrong2.len(),
                ))
            }
        }),
{
    let text = letter.as_str();
    proof {
        if vstd::utf8::is_ascii_chars(letter@) {
            vstd::utf8::is_ascii_chars_encode_utf8(letter@);
            vstd::utf8::is_ascii_chars_nat_bound(letter@);
        }
    }
    let bytes = text.as_bytes();
    if bytes.len() != 1 || !text.is_ascii() {
        return Err(GuessError::IllegalGuess(letter));
    }
    proof {
        vstd::utf8::is_ascii_chars_encode_utf8(letter@);
        vstd::utf8::is_ascii_chars_nat_bound(letter@);
    }
    if game.is_lost() {
        return Ok(UpdateGameResponse::lose(game.word.as_str(), "Better luck next time!"));
    }
    if game.is_won() {
        return Ok(
            UpdateGameResponse::win(game.word.as_str(), "I said you won! Stop rubbing it in. >.<"),
        );
    }
    let guess = to_upper_byte(bytes[0]);
    if game.correct.contains(guess) || game.incorrect.contains(guess) {
        return Err(GuessError::DuplicateGuess(letter));
    }
    if word_has(&game.word, guess) {
        game.correct.insert(guess);
        if game.is_won() {
            if game.guesses_remaining() >= 3 {
                return Ok(UpdateGameResponse::win(game.word.as_str(), "FLAWLESS VICTORY!"));
            } else {
                return Ok(UpdateGameResponse::win(game.word.as_str(), "Victory is yours!"));
            }
        }
        Ok(UpdateGameResponse::update(game))
    } else {
        game.incorrect.insert(guess);
        if game.is_lost() {
            return Ok(
                UpdateGameResponse::lose(game.word.as_str(), "Sorry, friend. You've been hanged!"),
            );
        }
        Ok(UpdateGameResponse::update(game))
    }
}

} // verus!

verus! {

/// The state of a game in progress, under its id.
#[derive(Debug)]
pub struct RoundState {
    pub id: Uuid,
    pub word: String,
    pub guesses: i32,
}

/// The answer of the single-route server to a guess.
#[derive(Debug)]
pub enum PlayResponse {
    Victory { message: String },
    Defeat { message: String },
    Illegal { message: String },
    Continue(RoundState),
}

/// `r` answers with this kind of message: a victory, a defeat, or a refusal.
pub open spec fn is_message(r: PlayResponse, victory: bool, defeat: bool, message: Seq<char>) -> bool {
    match r {
        PlayResponse::Victory { message: m } => victory && !defeat && m@ == message,
        PlayResponse::Defeat { message: m } => !victory && defeat && m@ == message,
        PlayResponse::Illegal { message: m } => !victory && !defeat && m@ == message,
        PlayResponse::Continue(_) => false,
    }
}

/// `r` continues the game `id` on `word` with these right letters and wrong
/// guesses.
pub open spec fn is_continue(r: PlayResponse, id: Uuid, word: Seq<char>, correct: Set<u8>, wrong: nat) -> bool {
    match r {
        PlayResponse::Continue(s) => s.id == id && s.word@ == mask_of(word, correct) && s.guesses
            == remaining(wrong),
        _ => false,
    }
}

/// The state of `game` under `id`.
fn round_state(id: Uuid, game: &Game) -> (r: RoundState)
    requires
        game.wf(),
    ensures
        r.id == id,
        r.word@ == mask_of(game.word@, game.correct_letters()),
        r.guesses == remaining(game.incorrect_letters().len()),
{
    RoundState { id, word: game.masked_word(), guesses: game.guesses_remaining() }
}

/// Plays the guess `letter` on the game `id` of the single-route server. A
/// game already lost or won answers so. A guess that is not one ASCII
/// character is illegal, as is a letter already guessed right; a letter already guessed
/// wrong counts as wrong again. Otherwise the letter, in uppercase, joins the
/// right or the wrong letters, and the answer says whether that won the game
/// (flawlessly with three or more wrong guesses left), lost it, or lets it go
/// on.
pub fn play_game(game: &mut Game, id: Uuid, letter: &str) -> (r: PlayResponse)
    requires
        old(game).wf(),
    ensures
        final(game).wf(),
        final(game).word == old(game).word,
        ({
            let w = old(game).word@;
            let right = old(game).correct_letters();
            let wrong = old(game).incorrect_letters();
            let g = guess_letter(letter@);
            let right2 = right.insert(g);
            let wrong2 = wrong.insert(g);
            if wrong.len() >= MAX_WRONG {
                is_message(r, false, true, "Better luck next time!"@)
                    && final(game).correct_letters() == right
                    && final(game).incorrect_letters() == wrong
            } else if all_guessed(w, right) {
                is_message(r, true, false, "I said you won! Stop rubbing it in. >.<"@)
                    && final(game).correct_letters() == right
                    && final(game).incorrect_letters() == wrong
            } else if !is_single_ascii(letter@) {
                is_message(r, false, false, "Your guess must consist of a single letter."@)
                    && final(game).correct_letters() == right
                    && final(game).incorrect_letters() == wrong
            } else if right.contains(g) {
                is_message(r, false, false, "Your guesses must be unique."@)
                    && final(game).correct_letters() == right
                    && final(game).incorrect_letters() == wrong
            } else if exists|i: int| 0 <= i < w.len() && #[trigger] w[i] as u8 == g {
                &&& final(game).correct_letters() == right2
                &&& final(game).incorrect_letters() == wrong
                &&& all_guessed(w, right2) && remaining(wrong.len()) >= 3 ==> is_message(
                    r,
                    true,
                    false,
                    "FLAWLESS VICTORY!"@,
                )
                &&& all_guessed(w, right2) && remaining(wrong.len()) < 3 ==> is_message(
                    r,
                    true,
                    false,
                    "Victory is yours!"@,
                )
                &&& !all_guessed(w, right2) ==> is_continue(r, id, w, right2, wrong.len())
            } else {
                &&& final(game).correct_letters() == right
                &&& final(game).incorrect_letters() == wrong2
                &&& wrong2.len() >= MAX_WRONG ==> is_message(
                    r,
                    false,
                    true,
                    "Sorry, friend. You've been hanged!"@,
                )
                &&& wrong2.len() < MAX_WRONG ==> is_continue(r, id, w, right, wrong2.len())
            }
        }),
{
    if game.is_lost() {
        return PlayResponse::Defeat { message: "Better luck next time!".to_owned() };
    }
    if game.is_won() {
        return PlayResponse::Victory {
            message: "I said you won! Stop rubbing it in. >.<".to_owned(),
        };
    }
    let bytes = letter.as_bytes();
    proof {
        if vstd::utf8::is_ascii_chars(letter@) {
            vstd::utf8::is_ascii_chars_encode_utf8(letter@);
        }
    }
    // A string of one byte is one ASCII character.
    if bytes.len() != 1 || !letter.is_ascii() {
        return PlayResponse::Illegal {
            message: "Your guess must consist of a single letter.".to_owned(),
        };
    }
    proof {
        vstd::utf8::is_ascii_chars_encode_utf8(letter@);
    }
    let guess = to_upper_byte(bytes[0]);
    if game.correct.contains(guess) {
        return PlayResponse::Illegal { message: "Your guesses must be unique.".to_owned() };
    }
    if word_has(&game.word, guess) {
        game.correct.insert(guess);
        if game.is_won() {
            if game.guesses_remaining() >= 3 {
                return PlayResponse::Victory { message: "FLAWLESS VICTORY!".to_owned() };
            } else {
                return PlayResponse::Victory { message: "Victory is yours!".to_owned() };
            }
        }
        PlayResponse::Continue(round_state(id, game))
    } else {
        game.incorrect.insert(guess);
        if game.is_lost() {
            return PlayResponse::Defeat {
                message: "Sorry, friend. You've been hanged!".to_owned(),
            };
        }
        PlayResponse::Continue(round_state(id, game))
    }
}

} // verus!
