//! A word-guessing game: each guess is marked letter by letter against the
//! hidden word.
use vstd::prelude::*;
use vstd::string::*;
use crate::text::{char_at, chars_of};

verus! {

/// How a game stands.
#[derive(Debug, Clone, Copy, PartialEq, Eq, Structural)]
pub enum GameStatus {
    InProgress,
    Won,
    Lost,
}

/// Why a game could not be started or a guess not be taken.
#[derive(Debug, Clone, Copy, PartialEq, Eq, Structural)]
pub enum GameError {
    /// The character is not in the alphabet of the game.
    NotInAlphabet(char),
    /// The guess has `actual` letters where the word has `expected`.
    WrongLength { expected: usize, actual: usize },
    /// The game has ended, as the status says.
    GameIsOver(GameStatus),
}

/// A letter with what is known of it.
#[derive(Debug, Clone, Copy, PartialEq, Eq, Structural)]
pub enum Letter {
    /// Not guessed yet.
    Unknown(char),
    /// In the word, at this place.
    FullMatch(char),
    /// In the word, at another place.
    PartialMatch(char),
    /// Not in the word.
    NoMatch(char),
}

/// What is known of a letter.
#[derive(Debug, Clone, Copy, PartialEq, Eq, Structural)]
pub enum Mark {
    /// Not guessed yet.
    Unknown,
    /// In the word, at this place.
    Full,
    /// In the word, at another place.
    Partial,
    /// Not in the word.
    Absent,
}

/// What `char::to_uppercase` gives for a character: one character or more.
pub uninterp spec fn uppercase_of(c: char) -> Seq<char>;

/// `char::to_uppercase` yields the upper-case form of a character, which the
/// Unicode tables fix whatever the language; here it is written out.
#[verifier::external_body]
fn uppercase(c: char) -> (out: String)
    ensures
        out@ == uppercase_of(c),
{
    c.to_uppercase().collect()
}

impl Letter {
    /// The character of the letter.
    pub open spec fn character(self) -> char {
        match self {
            Letter::Unknown(c) => c,
            Letter::FullMatch(c) => c,
            Letter::PartialMatch(c) => c,
            Letter::NoMatch(c) => c,
        }
    }

    /// What is known of the letter.
    pub open spec fn mark(self) -> Mark {
        match self {
            Letter::Unknown(_) => Mark::Unknown,
            Letter::FullMatch(_) => Mark::Full,
            Letter::PartialMatch(_) => Mark::Partial,
            Letter::NoMatch(_) => Mark::Absent,
        }
    }

    /// How the letter is shown.
    pub open spec fn text(self) -> Seq<char> {
        shown(self.character(), self.mark())
    }

    /// The letter as it is shown, once its upper-case form is known: `|_|`
    /// while unknown, else the upper-case form between brackets that tell
    /// the kind of match.
    pub fn text_given(&self, upper: &str) -> (out: String)
        ensures
            out@ == framed(self.mark(), upper@),
    {
        let mut out = String::new();
        match self {
            Letter::Unknown(_) => {
                out.push('|');
                out.push('_');
                out.push('|');
            },
            Letter::FullMatch(_) => {
                out.push('[');
                out.append(upper);
                out.push(']');
            },
            Letter::PartialMatch(_) => {
                out.push('(');
                out.append(upper);
                out.push(')');
            },
            Letter::NoMatch(_) => {
                out.push('>');
                out.append(upper);
                out.push('<');
            },
        }
        assert(out@ =~= framed(self.mark(), upper@));
        out
    }

    /// Appends the letter as it is shown.
    fn push_text(&self, out: &mut String)
        ensures
            final(out)@ == old(out)@ + self.text(),
    {
        let shown = match self {
            Letter::Unknown(_) => self.text_given(""),
            Letter::FullMatch(c) => self.text_given(uppercase(*c).as_str()),
            Letter::PartialMatch(c) => self.text_given(uppercase(*c).as_str()),
            Letter::NoMatch(c) => self.text_given(uppercase(*c).as_str()),
        };
        out.append(shown.as_str());
    }
}

/// How a letter with the upper-case form `upper` is shown: `|_|` while
/// unknown, else `upper` between brackets that tell the kind of match.
pub open spec fn framed(mark: Mark, upper: Seq<char>) -> Seq<char> {
    match mark {
        Mark::Unknown => seq!['|', '_', '|'],
        Mark::Full => seq!['['] + upper + seq![']'],
        Mark::Partial => seq!['('] + upper + seq![')'],
        Mark::Absent => seq!['>'] + upper + seq!['<'],
    }
}

/// How a letter is shown: `|_|` while unknown, else its upper-case form
/// between brackets that tell the kind of match.
pub open spec fn shown(c: char, mark: Mark) -> Seq<char> {
    framed(mark, uppercase_of(c))
}

/// A word as contracts see it: its characters, and what is known of each.
pub struct WordView {
    pub chars: Seq<char>,
    pub marks: Seq<Mark>,
}

/// The word that `s` spells, none of its letters guessed yet.
pub open spec fn unknown_word(s: Seq<char>) -> WordView {
    WordView { chars: s, marks: Seq::new(s.len(), |i: int| Mark::Unknown) }
}

/// How the first `n` letters of a word are shown, one after the other.
pub open spec fn shown_upto(word: WordView, n: nat) -> Seq<char>
    decreases n,
{
    if n == 0 {
        Seq::empty()
    } else {
        shown_upto(word, (n - 1) as nat) + shown(word.chars[n - 1], word.marks[n - 1])
    }
}

/// How a word is shown.
pub open spec fn word_text(word: WordView) -> Seq<char> {
    shown_upto(word, word.chars.len())
}

/// How a list of words is shown: one word on each line.
pub open spec fn history_text(history: Seq<WordView>) -> Seq<char>
    decreases history.len(),
{
    if history.len() == 0 {
        Seq::empty()
    } else if history.len() == 1 {
        word_text(history[0])
    } else {
        history_text(history.drop_last()) + seq!['\n'] + word_text(history.last())
    }
}

/// The mark that the letter at place `i` of a guess gets against `word`.
pub open spec fn mark(word: Seq<char>, guess: Seq<char>, i: int) -> Mark
    recommends
        0 <= i < guess.len() <= word.len(),
{
    if word[i] == guess[i] {
        Mark::Full
    } else if word.contains(guess[i]) {
        Mark::Partial
    } else {
        Mark::Absent
    }
}

/// A guess with each of its letters marked against `word`.
pub open spec fn marked(word: Seq<char>, guess: Seq<char>) -> WordView
    recommends
        guess.len() == word.len(),
{
    WordView { chars: guess, marks: Seq::new(guess.len(), |i: int| mark(word, guess, i)) }
}

/// Whether every letter of a word is a full match.
pub open spec fn all_full(word: WordView) -> bool {
    forall|k: int| 0 <= k < word.marks.len() ==> #[trigger] word.marks[k] == Mark::Full
}

/// Whether `at` is the place of the first character of `s` that is not in
/// `alphabet`.
pub open spec fn is_first_outside(alphabet: Seq<char>, s: Seq<char>, at: int) -> bool {
    &&& 0 <= at < s.len()
    &&& !alphabet.contains(s[at])
    &&& forall|k: int| 0 <= k < at ==> alphabet.contains(#[trigger] s[k])
}

/// Whether every character of `s` is in `alphabet`.
pub open spec fn within(alphabet: Seq<char>, s: Seq<char>) -> bool {
    forall|k: int| 0 <= k < s.len() ==> alphabet.contains(#[trigger] s[k])
}

/// A word: a row of letters, each with what is known of it.
#[derive(Debug, Default)]
pub struct Word {
    letters: Vec<Letter>,
}

impl Clone for Word {
    fn clone(&self) -> (copy: Word)
        ensures
            copy@ == self@,
    {
        let mut letters: Vec<Letter> = Vec::new();
        let mut i: usize = 0;
        while i < self.letters.len()
            invariant
                i <= self.letters.len(),
                letters@ == self.letters@.take(i as int),
            decreases self.letters.len() - i,
        {
            letters.push(self.letters[i]);
            assert(letters@ =~= self.letters@.take(i + 1));
            i += 1;
        }
        assert(self.letters@.take(i as int) =~= self.letters@);
        Word { letters }
    }
}

impl View for Word {
    type V = WordView;

    closed spec fn view(&self) -> WordView {
        WordView {
            chars: self.letters@.map_values(|l: Letter| l.character()),
            marks: self.letters@.map_values(|l: Letter| l.mark()),
        }
    }
}

impl Word {
    /// The empty word.
    pub fn new() -> (word: Word)
        ensures
            word@ == unknown_word(Seq::empty()),
    {
        let word = Word { letters: Vec::new() };
        assert(word@.chars =~= Seq::<char>::empty());
        assert(word@.marks =~= unknown_word(Seq::empty()).marks);
        word
    }

    /// The word that `s` spells, none of its letters guessed yet.
    pub fn from_str(s: &str) -> (r: Result<Word, GameError>)
        ensures
            r matches Ok(word) && word@ == unknown_word(s@),
    {
        let chars = chars_of(s);
        let mut letters: Vec<Letter> = Vec::new();
        let mut i: usize = 0;
        while i < chars.len()
            invariant
                i <= chars.len(),
                chars@ == s@,
                letters@.len() == i,
                forall|k: int|
                    0 <= k < i ==> (#[trigger] letters@[k]).character() == s@[k] && letters@[k].mark()
                        == Mark::Unknown,
            decreases chars.len() - i,
        {
            letters.push(Letter::Unknown(char_at(&chars, i)));
            i += 1;
        }
        let word = Word { letters };
        assert(word@.chars =~= s@);
        assert(word@.marks =~= unknown_word(s@).marks);
        Ok(word)
    }

    /// The letters of the word.
    pub fn letters(&self) -> (letters: &Vec<Letter>)
        ensures
            letters@.len() == self@.chars.len() == self@.marks.len(),
            forall|k: int|
                0 <= k < letters@.len() ==> (#[trigger] letters@[k]).character() == self@.chars[k]
                    && letters@[k].mark() == self@.marks[k],
    {
        &self.letters
    }

    /// The word as it is shown.
    pub fn to_string(&self) -> (out: String)
        ensures
            out@ == word_text(self@),
    {
        let mut out = String::new();
        self.push_text(&mut out);
        assert(Seq::<char>::empty() + word_text(self@) =~= word_text(self@));
        out
    }

    /// Appends the word as it is shown.
    fn push_text(&self, out: &mut String)
        ensures
            final(out)@ == old(out)@ + word_text(self@),
    {
        let mut i: usize = 0;
        assert(old(out)@ + Seq::<char>::empty() =~= old(out)@);
        while i < self.letters.len()
            invariant
                i <= self.letters.len(),
                out@ == old(out)@ + shown_upto(self@, i as nat),
            decreases self.letters.len() - i,
        {
            self.letters[i].push_text(out);
            assert(out@ =~= old(out)@ + shown_upto(self@, (i + 1) as nat));
            i += 1;
        }
    }

    /// Whether every letter is a full match.
    fn all_matched(&self) -> (all: bool)
        ensures
            all == all_full(self@),
    {
        let mut i: usize = 0;
        while i < self.letters.len()
            invariant
                i <= self.letters.len(),
                forall|k: int| 0 <= k < i ==> #[trigger] self@.marks[k] == Mark::Full,
            decreases self.letters.len() - i,
        {
            match self.letters[i] {
                Letter::FullMatch(_) => {},
                _ => {
                    assert(self@.marks[i as int] != Mark::Full);
                    return false;
                },
            }
            i += 1;
        }
        true
    }
}

/// A game as contracts see it.
pub struct GameView {
    pub status: GameStatus,
    pub attempts: u8,
    /// The characters that words and guesses may use.
    pub alphabet: Seq<char>,
    /// The hidden word.
    pub word: Seq<char>,
    /// The hidden word, all unknown, and after it each guess as it was marked.
    pub history: Seq<WordView>,
}

/// A game: the hidden word, and the guesses made so far.
#[derive(Debug)]
pub struct Game {
    pub status: GameStatus,
    pub attempts: u8,
    alphabet: Vec<char>,
    word: Vec<char>,
    history: Vec<Word>,
}

impl View for Game {
    type V = GameView;

    closed spec fn view(&self) -> GameView {
        GameView {
            status: self.status,
            attempts: self.attempts,
            alphabet: self.alphabet@,
            word: self.word@,
            history: self.history@.map_values(|w: Word| w@),
        }
    }
}

/// The game that a guess leaves behind, and what the guess yields: the guess
/// marked against the word, or the reason why it was not taken.
pub open spec fn guessed(game: GameView, guess: Seq<char>) -> (
    GameView,
    Result<WordView, GameError>,
)
    recommends
        game.attempts < u8::MAX,
{
    if game.status != GameStatus::InProgress {
        (game, Err(GameError::GameIsOver(game.status)))
    } else if guess.len() != game.word.len() {
        (
            game,
            Err(
                GameError::WrongLength {
                    expected: game.word.len() as usize,
                    actual: guess.len() as usize,
                },
            ),
        )
    } else if !within(game.alphabet, guess) {
        (
            game,
            Err(
                GameError::NotInAlphabet(
                    guess[choose|at: int| is_first_outside(game.alphabet, guess, at)],
                ),
            ),
        )
    } else {
        let result = marked(game.word, guess);
        let attempts = (game.attempts + 1) as u8;
        let status = if all_full(result) {
            GameStatus::Won
        } else if attempts >= 5 {
            GameStatus::Lost
        } else {
            GameStatus::InProgress
        };
        (GameView { status, attempts, history: game.history.push(result), ..game }, Ok(result))
    }
}

/// Only one place can be that of the first character outside an alphabet.
pub proof fn lemma_first_outside_is_unique(alphabet: Seq<char>, s: Seq<char>, a: int, b: int)
    requires
        is_first_outside(alphabet, s, a),
        is_first_outside(alphabet, s, b),
    ensures
        a == b,
{
    if a < b {
        assert(alphabet.contains(s[a]));
    } else if b < a {
        assert(alphabet.contains(s[b]));
    }
}

/// Whether `c` is among `alphabet`.
fn among(alphabet: &Vec<char>, c: char) -> (found: bool)
    ensures
        found == alphabet@.contains(c),
{
    let mut i: usize = 0;
    while i < alphabet.len()
        invariant
            i <= alphabet.len(),
            forall|k: int| 0 <= k < i ==> alphabet@[k] != c,
        decreases alphabet.len() - i,
    {
        if alphabet[i] == c {
            return true;
        }
        i += 1;
    }
    false
}

/// The place of the first character of `s` that is not in `alphabet`.
fn first_outside(alphabet: &Vec<char>, s: &Vec<char>) -> (found: Option<usize>)
    ensures
        match found {
            Some(at) => is_first_outside(alphabet@, s@, at as int),
            None => within(alphabet@, s@),
        },
{
    let mut i: usize = 0;
    while i < s.len()
        invariant
            i <= s.len(),
            forall|k: int| 0 <= k < i ==> alphabet@.contains(#[trigger] s@[k]),
        decreases s.len() - i,
    {
        if !among(alphabet, s[i]) {
            return Some(i);
        }
        i += 1;
    }
    None
}

impl Game {
    /// How the game stands: the field `status`, which is the status that
    /// contracts speak of.
    pub fn status(&self) -> (status: GameStatus)
        ensures
            status == self@.status,
    {
        self.status
    }

    /// The number of guesses taken so far: the field `attempts`, which is
    /// the number that contracts speak of.
    pub fn attempts(&self) -> (attempts: u8)
        ensures
            attempts == self@.attempts,
    {
        self.attempts
    }

    /// A new game with the hidden word `word`, whose characters must all be
    /// in `alphabet`.
    pub fn new(alphabet: &str, word: &str) -> (r: Result<Game, GameError>)
        ensures
            match r {
                Ok(game) => within(alphabet@, word@) && game@ == (GameView {
                    status: GameStatus::InProgress,
                    attempts: 0,
                    alphabet: alphabet@,
                    word: word@,
                    history: seq![unknown_word(word@)],
                }),
                Err(e) => exists|at: int|
                    is_first_outside(alphabet@, word@, at) && e == GameError::NotInAlphabet(
                        word@[at],
                    ),
            },
    {
        let alphabet = chars_of(alphabet);
        let chars = chars_of(word);
        let hidden = match Word::from_str(word) {
            Ok(hidden) => hidden,
            Err(e) => {
                return Err(e);
            },
        };
        match first_outside(&alphabet, &chars) {
            Some(at) => Err(GameError::NotInAlphabet(char_at(&chars, at))),
            None => {
                let mut history: Vec<Word> = Vec::new();
                history.push(hidden);
                let game = Game {
                    status: GameStatus::InProgress,
                    attempts: 0,
                    alphabet,
                    word: chars,
                    history,
                };
                assert(game@.history =~= seq![unknown_word(word@)]);
                Ok(game)
            },
        }
    }

    /// Takes a guess: marks each of its letters against the hidden word,
    /// counts the attempt, and ends the game if the guess is right or was
    /// the fifth.
    pub fn guess_word(&mut self, guess: &str) -> (r: Result<Word, GameError>)
        requires
            old(self)@.attempts < u8::MAX,
        ensures
            final(self)@ == guessed(old(self)@, guess@).0,
            match guessed(old(self)@, guess@).1 {
                Ok(letters) => r matches Ok(word) && word@ == letters,
                Err(e) => r == Err::<Word, GameError>(e),
            },
    {
        match self.status {
            GameStatus::InProgress => {},
            _ => {
                return Err(GameError::GameIsOver(self.status));
            },
        }
        let chars = chars_of(guess);
        if chars.len() != self.word.len() {
            return Err(GameError::WrongLength { expected: self.word.len(), actual: chars.len() });
        }
        match first_outside(&self.alphabet, &chars) {
            Some(at) => {
                proof {
                    assert(is_first_outside(self@.alphabet, guess@, at as int));
                    let chosen = choose|k: int| is_first_outside(self@.alphabet, guess@, k);
                    lemma_first_outside_is_unique(self@.alphabet, guess@, at as int, chosen);
                }
                return Err(GameError::NotInAlphabet(char_at(&chars, at)));
            },
            None => {},
        }
        let result = mark_guess(&self.word, &chars);
        let won = result.all_matched();
        self.history.push(result.clone());
        self.attempts += 1;
        if won {
            self.status = GameStatus::Won;
        } else if self.attempts >= 5 {
            self.status = GameStatus::Lost;
        }
        assert(self@.history =~= old(self)@.history.push(result@));
        Ok(result)
    }

    /// The game as it is shown: the hidden word, all unknown, then each
    /// guess as it was marked, one on each line.
    pub fn to_string(&self) -> (out: String)
        ensures
            out@ == history_text(self@.history),
    {
        let mut out = String::new();
        let ghost shown = self@.history;
        let mut i: usize = 0;
        assert(shown.take(0) =~= Seq::<WordView>::empty());
        while i < self.history.len()
            invariant
                i <= self.history.len(),
                shown == self.history@.map_values(|w: Word| w@),
                out@ == history_text(shown.take(i as int)),
            decreases self.history.len() - i,
        {
            if i > 0 {
                out.push('\n');
            }
            self.history[i].push_text(&mut out);
            proof {
                let next = shown.take(i + 1);
                assert(next.drop_last() =~= shown.take(i as int));
                assert(next.last() == self.history@[i as int]@);
                if i == 0 {
                    assert(Seq::<char>::empty() + word_text(next[0]) =~= word_text(next[0]));
                }
                assert(out@ =~= history_text(next));
            }
            i += 1;
        }
        assert(shown.take(i as int) =~= shown);
        out
    }
}

/// A guess with each of its letters marked against `word`.
fn mark_guess(word: &Vec<char>, guess: &Vec<char>) -> (result: Word)
    requires
        guess.len() == word.len(),
    ensures
        result@ == marked(word@, guess@),
{
    let mut letters: Vec<Letter> = Vec::new();
    let mut i: usize = 0;
    while i < guess.len()
        invariant
            i <= guess.len() == word.len(),
            letters@.len() == i,
            forall|k: int|
                0 <= k < i ==> (#[trigger] letters@[k]).character() == guess@[k] && letters@[k].mark()
                    == mark(word@, guess@, k),
        decreases guess.len() - i,
    {
        let c = char_at(guess, i);
        let letter = if word[i] == c {
            Letter::FullMatch(c)
        } else if among(word, c) {
            Letter::PartialMatch(c)
        } else {
            Letter::NoMatch(c)
        };
        letters.push(letter);
        i += 1;
    }
    let result = Word { letters };
    assert(result@.chars =~= guess@);
    assert(result@.marks =~= marked(word@, guess@).marks);
    result
}

} // verus!

