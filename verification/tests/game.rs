use std::convert::TryFrom;
use wordle_solve::engine::{
    Engine, GuessError, GuessResult, SessionState, StandardEngine, StdinEvaluator,
};
use wordle_solve::strategy::{
    opening_word, SimpleStrategy, StdinGuesser, StdinThenSolver, Strategy, Turn,
};
use wordle_solve::word::LetterScore::{RightLetter, RightPlace, Wrong};
use wordle_solve::word::{Word, WordList};
use wordle_solve::{run_game, run_round, GameError};

const WORD_LIST: [&str; 120] = [
    "about", "above", "actor", "adult", "after", "again", "agent", "alarm", "album", "alert",
    "alone", "along", "amber", "angle", "apple", "arena", "argue", "arise", "armor", "arose",
    "baker", "basic", "beach", "began", "black", "blush", "board", "brain", "bread", "brown",
    "cabin", "candy", "carry", "chair", "cheap", "chess", "civic", "clean", "clock", "color",
    "dance", "dealt", "depth", "diner", "doubt", "dozen", "draft", "dream", "drive", "eager",
    "eagle", "early", "earth", "eerie", "eight", "elbow", "empty", "enjoy", "equal", "error",
    "fable", "faith", "fancy", "fatal", "fault", "favor", "feast", "fever", "field", "fjord",
    "flair", "flame", "flask", "floor", "flour", "focus", "force", "forum", "found", "fresh",
    "giant", "glass", "globe", "grace", "grade", "grape", "happy", "harsh", "heart", "honor",
    "house", "humor", "ideal", "judge", "juror", "knife", "labor", "laser", "later", "layer",
    "major", "manor", "mayor", "money", "motor", "novel", "ocean", "other", "paper", "razor",
    "savor", "tutor", "vapor", "vigor", "visor", "voter", "water", "whale", "youth", "zebra",
];

fn word<const N: usize>(text: &str) -> Word<N> {
    Word::try_from(text).unwrap()
}

fn list<const N: usize>(texts: &[&str]) -> WordList<N> {
    WordList::from(texts.iter().map(|t| word::<N>(t)).collect::<Vec<_>>())
}

fn dictionary() -> WordList<5> {
    WordList::from(
        WORD_LIST
            .iter()
            .map(|s| Word::<5>::try_from(*s).unwrap())
            .collect::<Vec<_>>(),
    )
}

#[test]
fn test_simple_strategy() {
    let word_list: WordList<5> = dictionary();
    let strategy = SimpleStrategy::new(word_list.clone());
    let word = Word::try_from("favor").unwrap();
    let engine = StandardEngine::new(word, word_list, 10);
    assert!(matches!(run_game(engine, strategy), Ok(true)));
}

#[test]
fn solver_only_guesses_listed_words_when_the_opener_is_listed() {
    let texts = ["arose", "favor", "vapor", "savor", "razor", "major", "mayor", "manor"];
    for secret in texts {
        let words = list::<5>(&texts);
        let outcome = run_game(
            StandardEngine::new(word::<5>(secret), words.clone(), 10),
            SimpleStrategy::new(words),
        );
        assert!(outcome.is_ok());
    }
}

#[test]
fn solver_separates_two_candidates_with_a_probe() {
    let texts = ["arose", "favor", "vapor", "blush", "flair"];
    for secret in ["favor", "vapor", "arose", "flair"] {
        let words = list::<5>(&texts);
        let outcome = run_game(
            StandardEngine::new(word::<5>(secret), words.clone(), 10),
            SimpleStrategy::new(words),
        );
        assert_eq!(outcome, Ok(true));
    }
}

#[test]
fn opening_word_is_arose_for_five_letters_only() {
    assert_eq!(opening_word::<5>(), Some(word::<5>("arose")));
    assert_eq!(opening_word::<3>(), None);
    assert_eq!(opening_word::<6>(), None);
}

#[test]
fn first_guess_is_the_opening_word() {
    let mut solver = SimpleStrategy::new(list::<5>(&["favor", "vapor"]));
    assert!(solver.ready());
    assert_eq!(solver.make_guess(), word::<5>("arose"));
    assert_eq!(solver.num_guesses(), 1);
}

#[test]
fn worst_case_counts_the_fewest_words_ruled_out() {
    let solver = SimpleStrategy::new(list::<3>(&["abc", "abd", "xyz"]));
    assert_eq!(solver.score(&word::<3>("abc")), 1);
    assert_eq!(solver.score(&word::<3>("abd")), 1);
    assert_eq!(solver.score(&word::<3>("xyz")), 0);
    assert_eq!(solver.score(&word::<3>("qqq")), 0);
    assert_eq!(solver.score(&word::<3>("qqd")), 1);
}

#[test]
fn best_guess_is_the_last_of_the_best() {
    let mut solver = SimpleStrategy::new(list::<3>(&["abc", "abd", "xyz"]));
    assert_eq!(solver.make_guess(), word::<3>("abd"));
    solver.receive_score(&[RightPlace, RightPlace, Wrong]);
    assert_eq!(solver.viable_words().0, vec![word::<3>("abc")]);
    assert_eq!(solver.make_guess(), word::<3>("abc"));
    assert_eq!(solver.num_guesses(), 2);
}

#[test]
fn solver_without_candidates_is_not_ready() {
    let mut solver = SimpleStrategy::new(list::<3>(&["abc", "abd"]));
    solver.make_guess();
    solver.receive_score(&[Wrong, Wrong, Wrong]);
    assert!(solver.viable_words().0.is_empty());
    assert!(!solver.ready());
    assert!(!SimpleStrategy::new(list::<3>(&[])).ready());
}

#[test]
fn game_without_candidates_ends_with_an_error() {
    let outcome = run_game(
        StandardEngine::new(word::<3>("abc"), list::<3>(&["abc"]), 10),
        SimpleStrategy::new(list::<3>(&[])),
    );
    assert_eq!(outcome, Err(GameError::NoCandidates));
}

#[test]
fn game_with_an_unlisted_guess_is_rejected() {
    let outcome = run_game(
        StandardEngine::new(word::<5>("favor"), list::<5>(&["favor", "vapor"]), 10),
        SimpleStrategy::new(list::<5>(&["favor", "vapor"])),
    );
    assert_eq!(outcome, Err(GameError::Rejected(GuessError::NotInWordList)));
}

#[test]
fn game_is_lost_when_the_budget_runs_out() {
    let words = ["arose", "favor", "vapor", "savor", "razor", "major", "mayor", "manor"];
    let outcome = run_game(
        StandardEngine::new(word::<5>("manor"), list::<5>(&words), 1),
        SimpleStrategy::new(list::<5>(&words)),
    );
    assert_eq!(outcome, Ok(false));
    let outcome = run_game(
        StandardEngine::new(word::<5>("arose"), list::<5>(&words), 1),
        SimpleStrategy::new(list::<5>(&words)),
    );
    assert_eq!(outcome, Ok(true));
    let outcome = run_game(
        StandardEngine::new(word::<5>("arose"), list::<5>(&words), 0),
        SimpleStrategy::new(list::<5>(&words)),
    );
    assert_eq!(outcome, Err(GameError::Rejected(GuessError::TooManyGuesses)));
}

#[test]
fn round_hands_the_score_to_the_player() {
    let words = ["arose", "favor", "vapor", "blush"];
    let mut engine = StandardEngine::new(word::<5>("favor"), list::<5>(&words), 3);
    let mut solver = SimpleStrategy::new(list::<5>(&words));
    let result = run_round(&mut engine, &mut solver);
    assert_eq!(
        result,
        Ok(GuessResult::Continue([
            RightLetter,
            RightLetter,
            RightLetter,
            Wrong,
            Wrong
        ]))
    );
    assert_eq!(
        solver.viable_words().0,
        vec![word::<5>("favor"), word::<5>("vapor")]
    );
    assert_eq!(engine.guesses_remaining(), 2);
}

#[test]
fn unlisted_guess_is_refused_and_changes_nothing() {
    let mut engine = StandardEngine::new(word::<3>("abc"), list::<3>(&["abc", "abd"]), 2);
    assert_eq!(
        engine.score_guess(&word::<3>("xyz")),
        Err(GuessError::NotInWordList)
    );
    assert_eq!(engine.guesses_remaining(), 2);
    assert_eq!(engine.state(), SessionState::AwaitingGuess);
    assert_eq!(
        engine.score_guess(&word::<3>("abd")),
        Ok(GuessResult::Continue([RightPlace, RightPlace, Wrong]))
    );
    assert_eq!(engine.guesses_remaining(), 1);
}

#[test]
fn finished_session_refuses_every_guess() {
    let mut won = StandardEngine::new(word::<3>("abc"), list::<3>(&["abc", "abd"]), 5);
    assert_eq!(won.score_guess(&word::<3>("abc")), Ok(GuessResult::Done(true)));
    assert_eq!(won.state(), SessionState::Won);
    assert_eq!(won.score_guess(&word::<3>("abc")), Err(GuessError::TooManyGuesses));
    assert_eq!(won.score_guess(&word::<3>("xyz")), Err(GuessError::TooManyGuesses));
    assert_eq!(won.guesses_remaining(), 4);

    let mut lost = StandardEngine::new(word::<3>("abc"), list::<3>(&["abc", "abd"]), 2);
    assert_eq!(
        lost.score_guess(&word::<3>("abd")),
        Ok(GuessResult::Continue([RightPlace, RightPlace, Wrong]))
    );
    assert_eq!(lost.score_guess(&word::<3>("abd")), Ok(GuessResult::Done(false)));
    assert_eq!(lost.state(), SessionState::Lost);
    assert_eq!(lost.score_guess(&word::<3>("abc")), Err(GuessError::TooManyGuesses));
    assert_eq!(lost.guesses_remaining(), 0);
}

#[test]
fn last_attempt_can_still_win() {
    let mut engine = StandardEngine::new(word::<3>("abc"), list::<3>(&["abc", "abd"]), 1);
    assert_eq!(engine.score_guess(&word::<3>("abc")), Ok(GuessResult::Done(true)));
}

#[test]
fn session_without_budget_is_lost_from_the_start() {
    let mut engine = StandardEngine::new(word::<3>("abc"), list::<3>(&["abc"]), 0);
    assert_eq!(engine.state(), SessionState::Lost);
    assert_eq!(engine.score_guess(&word::<3>("abc")), Err(GuessError::TooManyGuesses));
}

#[test]
fn typed_score_is_read_by_its_letters() {
    assert_eq!(StdinEvaluator::<3>::letter_score_of_char('g'), Some(RightPlace));
    assert_eq!(StdinEvaluator::<3>::letter_score_of_char('Y'), Some(RightLetter));
    assert_eq!(StdinEvaluator::<3>::letter_score_of_char('b'), Some(Wrong));
    assert_eq!(StdinEvaluator::<3>::letter_score_of_char('x'), None);
    assert_eq!(
        StdinEvaluator::<3>::parse_score("gyb\n"),
        Some([RightPlace, RightLetter, Wrong])
    );
    assert_eq!(
        StdinEvaluator::<3>::parse_score(" G-y x B "),
        Some([RightPlace, RightLetter, Wrong])
    );
    assert_eq!(StdinEvaluator::<3>::parse_score("gy\n"), None);
    assert_eq!(StdinEvaluator::<3>::parse_score("gybb"), None);
    assert_eq!(StdinEvaluator::<0>::parse_score("\n"), Some([]));
}

#[test]
fn typed_guess_is_read_by_its_letters() {
    assert_eq!(StdinGuesser::<5>::read_letter('q'), Some('q'));
    assert_eq!(StdinGuesser::<5>::read_letter('Q'), Some('q'));
    assert_eq!(StdinGuesser::<5>::read_letter('A'), Some('a'));
    assert_eq!(StdinGuesser::<5>::read_letter('Z'), Some('z'));
    assert_eq!(StdinGuesser::<5>::read_letter('1'), None);
    assert_eq!(StdinGuesser::<5>::parse_guess("favor\n"), Some(word::<5>("favor")));
    assert_eq!(StdinGuesser::<5>::parse_guess(" Fa-VO r!\n"), Some(word::<5>("favor")));
    assert_eq!(StdinGuesser::<5>::parse_guess("favo\n"), None);
    assert_eq!(StdinGuesser::<5>::parse_guess("favors\n"), None);
    assert_eq!(StdinGuesser::<5>::parse_guess("favor\u{e9}\n"), None);
}

#[test]
fn person_plays_then_hands_over_to_the_solver() {
    let words = ["arose", "favor", "vapor", "blush", "flair"];
    let secret = word::<5>("favor");
    let mut player = StdinThenSolver::new(list::<5>(&words));
    assert!(player.is_stdin());
    assert!(!player.has_guessed());
    assert!(!player.solver_ready());
    assert_eq!(player.viable_count(), 5);

    let guess = word::<5>("blush");
    player.note_guess(guess);
    assert!(player.has_guessed());
    player.receive_score(&secret.evaluate_guess(&guess));
    assert_eq!(player.viable_count(), 2);

    player.start_solver();
    assert!(!player.is_stdin());
    assert_eq!(player.viable_count(), 0);
    assert!(player.solver_ready());
    assert!(!player.has_guessed());

    let guess = player.solver_guess();
    assert_eq!(guess, word::<5>("flair"));
    assert!(player.has_guessed());
    player.receive_score(&secret.evaluate_guess(&guess));
    let guess = player.solver_guess();
    assert_eq!(guess, secret);
}

#[test]
fn turns_go_to_the_person_until_the_solver_takes_over() {
    let words = ["arose", "favor", "vapor", "blush", "flair"];
    let secret = word::<5>("favor");
    let mut player = StdinThenSolver::new(list::<5>(&words));
    assert_eq!(player.make_guess(false), Turn::Person);
    assert!(player.is_stdin());
    let guess = word::<5>("blush");
    player.note_guess(guess);
    player.receive_score(&secret.evaluate_guess(&guess));

    assert_eq!(player.make_guess(true), Turn::Solver(word::<5>("flair")));
    assert!(!player.is_stdin());
    player.receive_score(&secret.evaluate_guess(&word::<5>("flair")));
    assert_eq!(player.make_guess(true), Turn::Solver(secret));
    assert_eq!(player.make_guess(false), Turn::Solver(secret));
}

#[test]
fn solver_that_takes_over_nothing_is_stuck() {
    let mut player = StdinThenSolver::new(list::<3>(&["abc", "abd"]));
    player.note_guess(word::<3>("abc"));
    player.receive_score(&[Wrong, Wrong, Wrong]);
    assert_eq!(player.viable_count(), 0);
    assert_eq!(player.make_guess(true), Turn::Stuck);
    assert!(!player.is_stdin());
    assert!(!player.solver_ready());
}

#[test]
fn solver_with_one_candidate_needs_no_dictionary() {
    let mut solver = SimpleStrategy::new(list::<3>(&[]));
    assert!(!solver.ready());
    solver.set_viable_words(list::<3>(&["abc"]));
    assert_eq!(solver.num_guesses(), 1);
    assert!(solver.ready());
    assert_eq!(solver.make_guess(), word::<3>("abc"));
    solver.set_viable_words(list::<3>(&["abc", "abd"]));
    assert!(!solver.ready());
}

#[test]
fn opening_needs_a_candidate_but_no_dictionary_word() {
    let mut solver = SimpleStrategy::new(list::<5>(&["favor"]));
    assert!(solver.ready());
    assert_eq!(solver.make_guess(), word::<5>("arose"));
    assert!(solver.ready());
    assert_eq!(solver.make_guess(), word::<5>("favor"));
}
