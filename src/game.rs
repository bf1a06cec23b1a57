//! The lifecycle of one game: created with a secret word, played one guess at
//! a time until a guess equals the secret, after which further guesses change
//! nothing.

use rand::Rng;
use vstd::prelude::*;

use crate::engine::{chars_of, classifies, match_chars, CharMatch};

verus! {

/// One game: its secret word, how many guesses were evaluated against it, and
/// whether one of them was the secret.
pub struct Game {
    pub word: String,
    pub goes: usize,
    pub solved: bool,
}

impl Game {
    /// A solved game has had at least one guess.
    pub open spec fn well_formed(&self) -> bool {
        self.solved ==> self.goes >= 1
    }
}

/// What a guess on a game produced.
pub struct Answer {
    pub solved: bool,
    /// The secret word, given once the game is solved.
    pub answer: Option<String>,
    pub guess: String,
    /// The number of guesses evaluated against the game after this one.
    pub goes: usize,
    /// One entry per letter of the guess; empty when the game was solved already.
    pub evaluation: Vec<CharMatch>,
}

/// Why a guess was turned away.
#[derive(Clone, Copy, PartialEq, Eq, Debug, Structural)]
pub enum GuessError {
    /// The guess is not in the vocabulary, or its length is not the secret's.
    InvalidGuess,
}

/// The attempt count and solved flag after `guess` is played on a game with
/// secret `word`, attempt count `goes` and solved flag `solved`.
pub open spec fn played(word: Seq<char>, goes: nat, solved: bool, guess: Seq<char>) -> (nat, bool) {
    if solved {
        (goes, true)
    } else {
        (goes + 1, guess == word)
    }
}

/// The attempt count and solved flag of a fresh game with secret `word` after
/// `guesses` are played on it, in order.
pub open spec fn replay(word: Seq<char>, guesses: Seq<Seq<char>>) -> (nat, bool)
    decreases guesses.len(),
{
    if guesses.len() == 0 {
        (0, false)
    } else {
        let (goes, solved) = replay(word, guesses.drop_last());
        played(word, goes, solved, guesses.last())
    }
}

/// `words` holds a word whose letters are `w`.
pub open spec fn listed(words: Seq<String>, w: Seq<char>) -> bool {
    exists|k: int| 0 <= k < words.len() && (#[trigger] words[k])@ == w
}

/// Two sequences of letters are the same word.
fn same_word(a: &Vec<char>, b: &Vec<char>) -> (r: bool)
    ensures
        r == (a@ == b@),
{
    if a.len() != b.len() {
        return false;
    }
    let mut i: usize = 0;
    while i < a.len()
        invariant
            a@.len() == b@.len(),
            i <= a@.len(),
            a@.subrange(0, i as int) == b@.subrange(0, i as int),
        decreases a@.len() - i,
    {
        if a[i] != b[i] {
            return false;
        }
        assert(a@.subrange(0, i + 1) == a@.subrange(0, i as int).push(a@[i as int]));
        assert(b@.subrange(0, i + 1) == b@.subrange(0, i as int).push(b@[i as int]));
        i = i + 1;
    }
    assert(a@ =~= a@.subrange(0, i as int));
    assert(b@ =~= b@.subrange(0, i as int));
    true
}

/// Evaluates `guess` against the secret of `game`: the classification of each
/// letter, whether the guess is the secret, and the attempt count after it.
pub fn evaluate_guess(game: &Game, guess: &str) -> (r: Answer)
    requires
        guess@.len() == game.word@.len(),
        game.goes < usize::MAX,
    ensures
        r.solved == (guess@ == game.word@),
        r.answer == if r.solved {
            Some(game.word)
        } else {
            None::<String>
        },
        r.guess@ == guess@,
        r.goes == game.goes + 1,
        classifies(r.evaluation@, game.word@, guess@),
{
    let secret = chars_of(game.word.as_str());
    let letters = chars_of(guess);
    let evaluation = match_chars(&secret, &letters);
    let solved = same_word(&secret, &letters);
    Answer {
        solved,
        answer: if solved {
            Some(game.word.clone())
        } else {
            None
        },
        guess: guess.to_owned(),
        goes: game.goes + 1,
        evaluation,
    }
}

/// Relies on rand's `thread_rng` and `Rng::gen_range`: a value drawn from
/// `0..n`; `gen_range` panics on an empty range.
#[verifier::external_body]
fn random_index(n: usize) -> (r: usize)
    requires
        n > 0,
    ensures
        r < n,
{
    rand::thread_rng().gen_range(0..n)
}

/// Relies on uuid's `Uuid::new_v4`, written out by its `Display` impl, which
/// gives the hyphenated form of 36 characters.
#[verifier::external_body]
fn new_game_id() -> (r: String)
    ensures
        r@.len() == 36,
{
    uuid::Uuid::new_v4().to_string()
}

/// Whether `guess` is one of the words of `vocabulary`.
pub fn is_valid_guess(vocabulary: &Vec<String>, guess: &str) -> (r: bool)
    ensures
        r == listed(vocabulary@, guess@),
{
    let target = guess.to_owned();
    let mut k: usize = 0;
    while k < vocabulary.len()
        invariant
            target@ == guess@,
            k <= vocabulary@.len(),
            forall|j: int| 0 <= j < k ==> (#[trigger] vocabulary@[j])@ != guess@,
        decreases vocabulary@.len() - k,
    {
        if vocabulary[k] == target {
            assert(vocabulary@[k as int]@ == guess@);
            return true;
        }
        k = k + 1;
    }
    false
}

/// Plays `guess` on `game`. A solved game is left as it is and gives back its
/// secret with no classifications. Otherwise a guess that is not in
/// `vocabulary`, or whose length is not the secret's, is turned away with the
/// game unchanged; any other guess is evaluated, counted as one more attempt,
/// and solves the game when it equals the secret.
pub fn submit_guess(game: &mut Game, guess: &str, vocabulary: &Vec<String>) -> (r: Result<
    Answer,
    GuessError,
>)
    requires
        old(game).goes < usize::MAX,
    ensures
        old(game).well_formed() ==> final(game).well_formed(),
        old(game).solved ==> {
            &&& *final(game) == *old(game)
            &&& r matches Ok(a) && {
                &&& a.solved
                &&& a.answer == Some(old(game).word)
                &&& a.guess@ == guess@
                &&& a.goes == old(game).goes
                &&& a.evaluation@.len() == 0
            }
        },
        !old(game).solved && !(listed(vocabulary@, guess@) && guess@.len()
            == old(game).word@.len()) ==> {
            &&& *final(game) == *old(game)
            &&& r == Err::<Answer, GuessError>(GuessError::InvalidGuess)
        },
        !old(game).solved && listed(vocabulary@, guess@) && guess@.len() == old(game).word@.len()
            ==> {
            &&& final(game).word == old(game).word
            &&& (final(game).goes as nat, final(game).solved) == played(
                old(game).word@,
                old(game).goes as nat,
                old(game).solved,
                guess@,
            )
            &&& r matches Ok(a) && {
                &&& a.solved == final(game).solved
                &&& a.answer == if a.solved {
                    Some(old(game).word)
                } else {
                    None::<String>
                }
                &&& a.guess@ == guess@
                &&& a.goes == final(game).goes
                &&& classifies(a.evaluation@, old(game).word@, guess@)
            }
        },
{
    if game.solved {
        return Ok(
            Answer {
                solved: true,
                answer: Some(game.word.clone()),
                guess: guess.to_owned(),
                goes: game.goes,
                evaluation: Vec::new(),
            },
        );
    }
    if !is_valid_guess(vocabulary, guess) || guess.unicode_len() != game.word.as_str().unicode_len() {
        return Err(GuessError::InvalidGuess);
    }
    let answer = evaluate_guess(game, guess);
    game.goes = answer.goes;
    game.solved = answer.solved;
    Ok(answer)
}

/// A word drawn at random from `words`.
pub fn random_answer(words: &Vec<String>) -> (r: String)
    requires
        words@.len() > 0,
    ensures
        listed(words@, r@),
{
    let k = random_index(words.len());
    words[k].clone()
}

/// A new game on a secret drawn at random from `answers`, with no attempts
/// yet, and the fresh identifier it is to be stored under.
pub fn create_game(answers: &Vec<String>) -> (r: (String, Game))
    requires
        answers@.len() > 0,
    ensures
        r.0@.len() == 36,
        r.1.well_formed(),
        listed(answers@, r.1.word@),
        r.1.goes == 0,
        !r.1.solved,
{
    let game_id = new_game_id();
    let word = random_answer(answers);
    (game_id, Game { word, goes: 0, solved: false })
}

/// How many times the store is asked to write a played guess before a
/// conflict is given up on.
pub const MAX_WRITES: u32 = 3;

/// What follows an attempt to store a played guess.
#[derive(Clone, Copy, PartialEq, Eq, Debug, Structural)]
pub enum NextStep {
    /// The write went through: the answer can be sent.
    Done,
    /// Another guess on the same game was stored first: load the game and
    /// play the guess again.
    Retry,
    /// Conflicts went on too long: report a transient failure.
    GiveUp,
}

/// The step after the `writes`-th attempt to store a played guess, which met
/// a concurrent update of the same game when `conflicted`.
pub fn after_write(conflicted: bool, writes: u32) -> (r: NextStep)
    ensures
        !conflicted ==> r == NextStep::Done,
        conflicted && writes < MAX_WRITES ==> r == NextStep::Retry,
        conflicted && writes >= MAX_WRITES ==> r == NextStep::GiveUp,
{
    if !conflicted {
        NextStep::Done
    } else if writes < MAX_WRITES {
        NextStep::Retry
    } else {
        NextStep::GiveUp
    }
}

/// A fresh game that is played only guesses that differ from its secret
/// counts exactly one attempt per guess and stays unsolved.
pub proof fn lemma_attempts_counted(word: Seq<char>, guesses: Seq<Seq<char>>)
    requires
        forall|i: int| 0 <= i < guesses.len() ==> #[trigger] guesses[i] != word,
    ensures
        replay(word, guesses) == (guesses.len(), false),
    decreases guesses.len(),
{
    if guesses.len() > 0 {
        let rest = guesses.drop_last();
        assert forall|i: int| 0 <= i < rest.len() implies #[trigger] rest[i] != word by {
            assert(rest[i] == guesses[i]);
        }
        lemma_attempts_counted(word, rest);
    }
}

} // verus!
