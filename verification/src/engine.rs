//! The session: it holds the secret, checks each guess against the legal
//! words and the budget of attempts, and scores it.

use crate::word::all_right_place;
use crate::word::is_win;
use crate::word::lemma_score_by_outcomes;
use crate::word::score_array;
use crate::word::score_of;
use crate::word::LetterScore;
use crate::word::Score;
use crate::word::Word;
use crate::word::WordList;
use vstd::prelude::*;
use vstd::string::StrSliceExecFns;

verus! {

/// What a scored guess leads to.
#[derive(Debug, Clone, Copy, PartialEq, Eq)]
pub enum GuessResult<const N: usize> {
    /// The game is over; the flag tells whether it was won.
    Done(bool),
    /// The game goes on, and this is the score of the guess.
    Continue(Score<N>),
}

/// Why a guess was not scored.
#[derive(Debug, Clone, Copy, PartialEq, Eq, Structural)]
pub enum GuessError {
    /// The guess is not one of the legal words.
    NotInWordList,
    /// The session was already over.
    TooManyGuesses,
}

/// Where a session stands.
#[derive(Debug, Clone, Copy, PartialEq, Eq, Structural)]
pub enum SessionState {
    /// The next guess will be checked and scored.
    AwaitingGuess,
    /// The secret was guessed.
    Won,
    /// The attempts ran out before the secret was guessed.
    Lost,
}

/// Scores guesses against a secret.
pub trait Engine<const N: usize> {
    /// The session's state, as plain values.
    type Model;

    /// The state of this session.
    spec fn model(&self) -> Self::Model;

    /// What a session must satisfy to take a guess.
    spec fn valid(m: Self::Model) -> bool;

    /// An upper bound on the guesses that can still earn a score.
    spec fn rounds_left(m: Self::Model) -> nat;

    /// What the session answers to `guess`.
    spec fn verdict(m: Self::Model, guess: Word<N>) -> Result<GuessResult<N>, GuessError>;

    /// The state of the session after it has answered `guess`.
    spec fn answered(m: Self::Model, guess: Word<N>) -> Self::Model;

    /// Answers one guess.
    fn score_guess(&mut self, guess: &Word<N>) -> (result: Result<GuessResult<N>, GuessError>)
        requires
            Self::valid(old(self).model()),
        ensures
            result == Self::verdict(old(self).model(), *guess),
            final(self).model() == Self::answered(old(self).model(), *guess),
            Self::valid(final(self).model()),
            result is Err ==> final(self).model() == old(self).model(),
            result matches Ok(GuessResult::Continue(_)) ==> Self::rounds_left(final(self).model())
                < Self::rounds_left(old(self).model()),
    ;
}

/// A session as plain values.
pub struct SessionView<const N: usize> {
    /// The word to find.
    pub secret: Word<N>,
    /// The words that may be guessed.
    pub legal: Seq<Word<N>>,
    /// How many guesses can still be scored.
    pub remaining: nat,
    /// Whether the session awaits a guess or is over.
    pub state: SessionState,
}

/// A session that awaits a guess has at least one attempt left.
pub open spec fn session_valid<const N: usize>(m: SessionView<N>) -> bool {
    m.state == SessionState::AwaitingGuess ==> m.remaining > 0
}

/// The answer of a session to a guess. A session that is over rejects every
/// guess; one that awaits a guess rejects a word that is not legal, and
/// otherwise ends with a win where the guess is the secret, ends with a loss
/// where this was the last attempt, and else hands out the score.
pub open spec fn session_verdict<const N: usize>(
    m: SessionView<N>,
    guess: Word<N>,
) -> Result<GuessResult<N>, GuessError> {
    if m.state != SessionState::AwaitingGuess {
        Err(GuessError::TooManyGuesses)
    } else if !m.legal.contains(guess) {
        Err(GuessError::NotInWordList)
    } else if all_right_place(score_of(m.secret@, guess@)) {
        Ok(GuessResult::Done(true))
    } else if m.remaining <= 1 {
        Ok(GuessResult::Done(false))
    } else {
        Ok(GuessResult::Continue(score_array::<N>(score_of(m.secret@, guess@))))
    }
}

/// The session after its answer to a guess: unchanged where the guess was
/// rejected, and otherwise one attempt shorter, and over where the answer
/// ended it.
pub open spec fn session_after<const N: usize>(m: SessionView<N>, guess: Word<N>) -> SessionView<
    N,
> {
    match session_verdict(m, guess) {
        Err(_) => m,
        Ok(GuessResult::Done(true)) => SessionView {
            remaining: (m.remaining - 1) as nat,
            state: SessionState::Won,
            ..m
        },
        Ok(GuessResult::Done(false)) => SessionView {
            remaining: (m.remaining - 1) as nat,
            state: SessionState::Lost,
            ..m
        },
        Ok(GuessResult::Continue(_)) => SessionView { remaining: (m.remaining - 1) as nat, ..m },
    }
}

/// A session that awaits a guess rejects a word that is not legal as
/// `NotInWordList`, and stays as it was.
pub proof fn lemma_unlisted_guess_rejected<const N: usize>(m: SessionView<N>, guess: Word<N>)
    requires
        m.state == SessionState::AwaitingGuess,
        !m.legal.contains(guess),
    ensures
        session_verdict(m, guess) == Err::<GuessResult<N>, GuessError>(GuessError::NotInWordList),
        session_after(m, guess) == m,
{
}

/// A session that is won or lost rejects every guess as `TooManyGuesses`,
/// and stays as it was.
pub proof fn lemma_finished_session_rejects<const N: usize>(m: SessionView<N>, guess: Word<N>)
    requires
        m.state != SessionState::AwaitingGuess,
    ensures
        session_verdict(m, guess) == Err::<GuessResult<N>, GuessError>(GuessError::TooManyGuesses),
        session_after(m, guess) == m,
{
}

/// Once a session has answered `Done`, it is over: it rejects whatever is
/// guessed next as `TooManyGuesses`.
pub proof fn lemma_done_is_final<const N: usize>(m: SessionView<N>, guess: Word<N>, next: Word<N>)
    requires
        session_verdict(m, guess) matches Ok(GuessResult::Done(_)),
    ensures
        session_after(m, guess).state != SessionState::AwaitingGuess,
        session_verdict(session_after(m, guess), next) == Err::<GuessResult<N>, GuessError>(
            GuessError::TooManyGuesses,
        ),
{
}

/// A valid session stays valid, and each score that it hands out leaves one
/// attempt fewer.
pub proof fn lemma_session_step<const N: usize>(m: SessionView<N>, guess: Word<N>)
    requires
        session_valid(m),
    ensures
        session_valid(session_after(m, guess)),
        session_after(m, guess).remaining <= m.remaining,
        session_verdict(m, guess) is Ok ==> session_after(m, guess).remaining + 1 == m.remaining,
{
}

/// A valid session that hands out a score has fewer rounds left afterwards,
/// so a game against it comes to an end.
pub proof fn lemma_score_uses_a_round<const N: usize>(m: SessionView<N>, guess: Word<N>)
    requires
        session_valid(m),
        session_verdict(m, guess) matches Ok(GuessResult::Continue(_)),
    ensures
        <StandardEngine<N> as Engine<N>>::rounds_left(session_after(m, guess)) < <StandardEngine<
            N,
        > as Engine<N>>::rounds_left(m),
{
}

/// A session with a fixed secret and a budget of attempts.
pub struct StandardEngine<const N: usize> {
    word: Word<N>,
    word_list: WordList<N>,
    guesses_remaining: usize,
    state: SessionState,
}

impl<const N: usize> View for StandardEngine<N> {
    type V = SessionView<N>;

    closed spec fn view(&self) -> SessionView<N> {
        SessionView {
            secret: self.word,
            legal: self.word_list@,
            remaining: self.guesses_remaining as nat,
            state: self.state,
        }
    }
}

impl<const N: usize> StandardEngine<N> {
    /// A session for `secret_word` in which `num_guesses` guesses can be
    /// scored. With a budget of zero it is lost from the start.
    pub fn new(secret_word: Word<N>, word_list: WordList<N>, num_guesses: usize) -> (engine:
        StandardEngine<N>)
        ensures
            engine@ == (SessionView {
                secret: secret_word,
                legal: word_list@,
                remaining: num_guesses as nat,
                state: if num_guesses == 0 {
                    SessionState::Lost
                } else {
                    SessionState::AwaitingGuess
                },
            }),
            session_valid(engine@),
    {
        StandardEngine {
            word: secret_word,
            word_list,
            guesses_remaining: num_guesses,
            state: if num_guesses == 0 {
                SessionState::Lost
            } else {
                SessionState::AwaitingGuess
            },
        }
    }

    /// Where the session stands.
    pub fn state(&self) -> (state: SessionState)
        ensures
            state == self@.state,
    {
        self.state
    }

    /// How many guesses can still be scored.
    pub fn guesses_remaining(&self) -> (n: usize)
        ensures
            n == self@.remaining,
    {
        self.guesses_remaining
    }
}

impl<const N: usize> Engine<N> for StandardEngine<N> {
    type Model = SessionView<N>;

    open spec fn model(&self) -> SessionView<N> {
        self@
    }

    open spec fn valid(m: SessionView<N>) -> bool {
        session_valid(m)
    }

    open spec fn rounds_left(m: SessionView<N>) -> nat {
        if m.state == SessionState::AwaitingGuess {
            m.remaining
        } else {
            0
        }
    }

    open spec fn verdict(m: SessionView<N>, guess: Word<N>) -> Result<GuessResult<N>, GuessError> {
        session_verdict(m, guess)
    }

    open spec fn answered(m: SessionView<N>, guess: Word<N>) -> SessionView<N> {
        session_after(m, guess)
    }

    /// Rejects the guess where the session is over or the word is not
    /// legal; otherwise uses up one attempt and scores the guess.
    fn score_guess(&mut self, guess: &Word<N>) -> (result: Result<GuessResult<N>, GuessError>)
        ensures
            result == session_verdict(old(self)@, *guess),
            final(self)@ == session_after(old(self)@, *guess),
            session_valid(final(self)@),
    {
        if self.state != SessionState::AwaitingGuess {
            return Err(GuessError::TooManyGuesses);
        }
        if !self.word_list.contains(guess) {
            return Err(GuessError::NotInWordList);
        }
        let score = self.word.evaluate_guess(guess);
        self.guesses_remaining = self.guesses_remaining - 1;
        if is_win(&score) {
            self.state = SessionState::Won;
            Ok(GuessResult::Done(true))
        } else if self.guesses_remaining == 0 {
            self.state = SessionState::Lost;
            Ok(GuessResult::Done(false))
        } else {
            proof {
                lemma_score_by_outcomes(score, score_array::<N>(score_of(self.word@, guess@)));
            }
            Ok(GuessResult::Continue(score))
        }
    }
}

/// The outcome that a typed character stands for: `g` for the right place,
/// `y` for the right letter, `b` for a wrong one, in either case; none for
/// anything else.
pub open spec fn outcome_of_char(c: char) -> Option<LetterScore> {
    if c == 'g' || c == 'G' {
        Some(LetterScore::RightPlace)
    } else if c == 'y' || c == 'Y' {
        Some(LetterScore::RightLetter)
    } else if c == 'b' || c == 'B' {
        Some(LetterScore::Wrong)
    } else {
        None
    }
}

/// The outcomes that a typed line holds, in order.
pub open spec fn typed_outcomes(line: Seq<char>) -> Seq<LetterScore> {
    line.filter_map(|c: char| outcome_of_char(c))
}

/// The score that a typed line stands for, where it holds exactly `N`
/// outcomes.
pub open spec fn typed_score<const N: usize>(line: Seq<char>) -> Option<Score<N>> {
    if typed_outcomes(line).len() == N {
        Some(score_array::<N>(typed_outcomes(line)))
    } else {
        None
    }
}

/// The person who knows the secret and types the scores. The library reads
/// what was typed; asking for it is the caller's part.
#[derive(Debug, Clone, Copy)]
pub struct StdinEvaluator<const N: usize>;

impl<const N: usize> StdinEvaluator<N> {
    /// Reads one typed character as an outcome.
    pub fn letter_score_of_char(c: char) -> (outcome: Option<LetterScore>)
        ensures
            outcome == outcome_of_char(c),
    {
        if c == 'g' || c == 'G' {
            Some(LetterScore::RightPlace)
        } else if c == 'y' || c == 'Y' {
            Some(LetterScore::RightLetter)
        } else if c == 'b' || c == 'B' {
            Some(LetterScore::Wrong)
        } else {
            None
        }
    }

    /// Reads a typed line as a score.
    pub fn parse_score(line: &str) -> (score: Option<Score<N>>)
        ensures
            score == typed_score::<N>(line@),
    {
        let ghost keep = |c: char| outcome_of_char(c);
        let count = line.unicode_len();
        let mut typed: Vec<LetterScore> = Vec::new();
        let mut i: usize = 0;
        while i < count
            invariant
                i <= count,
                count == line@.len(),
                keep == (|c: char| outcome_of_char(c)),
                typed@ == line@.take(i as int).filter_map(keep),
                typed@.len() <= i,
            decreases count - i,
        {
            let c = line.get_char(i);
            proof {
                assert(line@.take(i as int + 1).drop_last() =~= line@.take(i as int));
            }
            match Self::letter_score_of_char(c) {
                Some(outcome) => {
                    typed.push(outcome);
                    assert(typed@ =~= line@.take(i as int).filter_map(keep) + seq![outcome]);
                },
                None => {},
            }
            i += 1;
        }
        assert(line@.take(i as int) =~= line@);
        if typed.len() != N {
            return None;
        }
        let mut score: Score<N> = [LetterScore::Wrong; N];
        let mut k: usize = 0;
        while k < N
            invariant
                k <= N,
                typed@.len() == N,
                forall|j: int| 0 <= j < k ==> score@[j] == typed@[j],
            decreases N - k,
        {
            score[k] = typed[k];
            k += 1;
        }
        proof {
            assert(score@ =~= typed@);
            lemma_score_by_outcomes(score, score_array::<N>(typed@));
        }
        Some(score)
    }
}

} // verus!
