//! A word-guessing game in the style of Wordle, with a solver that picks the
//! guess whose worst case removes the most candidates.

pub mod engine;
pub mod strategy;
pub mod word;

use engine::session_valid;
use engine::session_verdict;
use engine::Engine;
use engine::GuessError;
use engine::GuessResult;
use engine::SessionState;
use engine::SessionView;
use engine::StandardEngine;
use strategy::after_guess;
use strategy::after_score;
use strategy::can_propose;
use strategy::candidates_listed;
use strategy::lemma_proposal_is_listed;
use strategy::opener;
use strategy::opens;
use strategy::proposal;
use strategy::SimpleStrategy;
use strategy::SolverView;
use strategy::Strategy;
use vstd::prelude::*;
use word::lemma_narrowed_keeps_secret;
use word::lemma_score_array_outcomes;
use word::score_of;

verus! {

/// Why a game ended without a win or a loss.
#[derive(Debug, Clone, Copy, PartialEq, Eq, Structural)]
pub enum GameError {
    /// The session did not score the player's guess.
    Rejected(GuessError),
    /// The player had no word to propose.
    NoCandidates,
}

/// How a game between a session and a player ends, round by round: the
/// player proposes a word; a rejected guess ends the game with its error, a
/// finished session ends it with a win or a loss, and a score is handed to
/// the player before the next round. A player with nothing to propose ends
/// the game as well. Every score uses up one of the session's rounds; for a
/// session that would hand out a score without doing so, which no session
/// that keeps its contract does, the outcome is left open.
pub open spec fn game_outcome<E: Engine<N>, S: Strategy<N>, const N: usize>(
    e: E::Model,
    s: S::Model,
) -> Result<bool, GameError>
    decreases E::rounds_left(e),
{
    if !S::can_guess(s) {
        Err(GameError::NoCandidates)
    } else {
        let guess = S::next_guess(s);
        match E::verdict(e, guess) {
            Err(why) => Err(GameError::Rejected(why)),
            Ok(GuessResult::Done(won)) => Ok(won),
            Ok(GuessResult::Continue(score)) => {
                let e_next = E::answered(e, guess);
                if E::rounds_left(e_next) < E::rounds_left(e) {
                    game_outcome::<E, S, N>(e_next, S::scored(S::guessed(s), score@))
                } else {
                    arbitrary()
                }
            },
        }
    }
}

/// A session and a solver that fit each other: the session awaits a guess,
/// the solver's dictionary is the session's list of legal words and holds
/// the opening word where the solver is about to open with it, every
/// candidate is listed, the secret is a candidate, and the solver's count of
/// guesses has room for the session's attempts.
pub open spec fn well_matched<const N: usize>(e: SessionView<N>, s: SolverView<N>) -> bool {
    &&& session_valid(e)
    &&& e.state == SessionState::AwaitingGuess
    &&& e.legal == s.dictionary
    &&& candidates_listed(s)
    &&& s.candidates.contains(e.secret)
    &&& s.guesses + e.remaining < usize::MAX
    &&& opens(s) ==> s.dictionary.contains(opener::<N>().unwrap())
}

/// A game between a session and a solver that fit each other ends with a
/// win or a loss: the solver never runs out of candidates, and the session
/// never rejects its guess.
pub proof fn lemma_well_matched_game_is_decided<const N: usize>(e: SessionView<N>, s: SolverView<N>)
    requires
        well_matched(e, s),
    ensures
        game_outcome::<StandardEngine<N>, SimpleStrategy<N>, N>(e, s) is Ok,
    decreases e.remaining,
{
    let guess = proposal(s);
    let earned = score_of(e.secret@, guess@);
    assert(s.candidates.len() > 0);
    assert(s.dictionary.contains(e.secret));
    assert(can_propose(s));
    lemma_proposal_is_listed(s, earned);
    assert(e.legal.contains(guess));
    if session_verdict(e, guess) matches Ok(GuessResult::Continue(_)) {
        lemma_score_array_outcomes::<N>(earned);
        let e_next = SessionView { remaining: (e.remaining - 1) as nat, ..e };
        let s_next = after_score(after_guess(s), earned);
        lemma_narrowed_keeps_secret(s.candidates, guess, e.secret);
        lemma_proposal_is_listed(after_guess(s), earned);
        assert(well_matched(e_next, s_next));
        lemma_well_matched_game_is_decided(e_next, s_next);
    }
}

/// Plays one round: the player's guess goes to the session, and its score,
/// where the game goes on, back to the player.
pub fn run_round<E: Engine<N>, S: Strategy<N>, const N: usize>(
    engine: &mut E,
    strategy: &mut S,
) -> (result: Result<GuessResult<N>, GuessError>)
    requires
        E::valid(old(engine).model()),
        S::can_guess(old(strategy).model()),
    ensures
        result == E::verdict(old(engine).model(), S::next_guess(old(strategy).model())),
        final(engine).model() == E::answered(
            old(engine).model(),
            S::next_guess(old(strategy).model()),
        ),
        E::valid(final(engine).model()),
        result is Err ==> final(engine).model() == old(engine).model(),
        result matches Ok(GuessResult::Continue(_)) ==> E::rounds_left(final(engine).model())
            < E::rounds_left(old(engine).model()),
        final(strategy).model() == match result {
            Ok(GuessResult::Continue(score)) => S::scored(
                S::guessed(old(strategy).model()),
                score@,
            ),
            _ => S::guessed(old(strategy).model()),
        },
{
    let guess = strategy.make_guess();
    let result = engine.score_guess(&guess);
    if let Ok(GuessResult::Continue(score)) = result {
        strategy.receive_score(&score);
    }
    result
}

/// Plays rounds until the session is over, a guess is rejected, or the
/// player has no word to propose.
pub fn run_game<E: Engine<N>, S: Strategy<N>, const N: usize>(engine: E, strategy: S) -> (outcome:
    Result<bool, GameError>)
    requires
        E::valid(engine.model()),
    ensures
        outcome == game_outcome::<E, S, N>(engine.model(), strategy.model()),
{
    let ghost start = game_outcome::<E, S, N>(engine.model(), strategy.model());
    let mut session = engine;
    let mut player = strategy;
    loop
        invariant
            E::valid(session.model()),
            game_outcome::<E, S, N>(session.model(), player.model()) == start,
            start == game_outcome::<E, S, N>(engine.model(), strategy.model()),
        decreases E::rounds_left(session.model()),
    {
        if !player.ready() {
            return Err(GameError::NoCandidates);
        }
        match run_round(&mut session, &mut player) {
            Err(why) => {
                return Err(GameError::Rejected(why));
            },
            Ok(GuessResult::Done(won)) => {
                return Ok(won);
            },
            Ok(GuessResult::Continue(_)) => {},
        }
    }
}

} // verus!
