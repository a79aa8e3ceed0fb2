//! The solver: it opens with a fixed word, then always proposes the word
//! whose worst case rules out the most candidates.

use crate::word::lemma_narrowed_idempotent;
use crate::word::lemma_narrowed_keeps_secret;
use crate::word::lemma_narrowed_no_longer;
use crate::word::lemma_word_by_letters;
use crate::word::narrowed;
use crate::word::same_score;
use crate::word::score_of;
use crate::word::word_of;
use crate::word::LetterScore;
use crate::word::Score;
use crate::word::Word;
use crate::word::WordList;
use vstd::prelude::*;

verus! {

/// The guess number (counting from zero) at which the solver stops probing
/// and proposes only words that can still be the secret.
pub const LAST_ATTEMPT: usize = 9;

/// The letters of the opening word.
pub open spec fn opener_letters() -> Seq<char> {
    seq!['a', 'r', 'o', 's', 'e']
}

/// The opening word, which exists only for words of five letters.
pub open spec fn opener<const N: usize>() -> Option<Word<N>> {
    if N == 5 {
        Some(word_of::<N>(opener_letters()))
    } else {
        None
    }
}

/// Builds the opening word.
pub fn opening_word<const N: usize>() -> (word: Option<Word<N>>)
    ensures
        word == opener::<N>(),
        word matches Some(w) ==> w@ == opener_letters(),
{
    if N == 5 {
        let mut letters: [char; N] = ['a'; N];
        letters[1] = 'r';
        letters[2] = 'o';
        letters[3] = 's';
        letters[4] = 'e';
        let word = Word(letters);
        proof {
            assert(word@ =~= opener_letters());
            lemma_word_by_letters(word, word_of::<N>(opener_letters()));
        }
        Some(word)
    } else {
        None
    }
}

/// Whether guessing `guess` rules the candidate `c` out when the secret is
/// `secret`: `c` is another word than the guess and would have earned
/// another score.
pub open spec fn rules_out<const N: usize>(guess: Word<N>, secret: Word<N>, c: Word<N>) -> bool {
    c != guess && score_of(c@, guess@) != score_of(secret@, guess@)
}

/// How many of `candidates` the guess rules out when the secret is `secret`.
pub open spec fn eliminated<const N: usize>(
    candidates: Seq<Word<N>>,
    guess: Word<N>,
    secret: Word<N>,
) -> nat {
    candidates.filter(|c: Word<N>| rules_out(guess, secret, c)).len()
}

/// The least number of candidates that `guess` rules out over the first `n`
/// candidates taken as the secret.
pub open spec fn worst_case_upto<const N: usize>(
    candidates: Seq<Word<N>>,
    guess: Word<N>,
    n: int,
) -> nat
    decreases n,
{
    if n <= 1 {
        eliminated(candidates, guess, candidates[0])
    } else {
        let rest = worst_case_upto(candidates, guess, n - 1);
        let here = eliminated(candidates, guess, candidates[n - 1]);
        if here < rest {
            here
        } else {
            rest
        }
    }
}

/// The number of candidates that `guess` is sure to rule out, whichever of
/// them is the secret.
pub open spec fn worst_case<const N: usize>(candidates: Seq<Word<N>>, guess: Word<N>) -> nat {
    worst_case_upto(candidates, guess, candidates.len() as int)
}

/// The worst case is a lower bound over every candidate secret, and some
/// candidate attains it.
pub proof fn lemma_worst_case_is_minimum<const N: usize>(
    candidates: Seq<Word<N>>,
    guess: Word<N>,
    n: int,
)
    requires
        1 <= n <= candidates.len(),
    ensures
        forall|j: int|
            0 <= j < n ==> worst_case_upto(candidates, guess, n) <= #[trigger] eliminated(
                candidates,
                guess,
                candidates[j],
            ),
        exists|j: int|
            0 <= j < n && worst_case_upto(candidates, guess, n) == #[trigger] eliminated(
                candidates,
                guess,
                candidates[j],
            ),
    decreases n,
{
    if n > 1 {
        lemma_worst_case_is_minimum(candidates, guess, n - 1);
        let k = choose|j: int|
            0 <= j < n - 1 && worst_case_upto(candidates, guess, n - 1) == #[trigger] eliminated(
                candidates,
                guess,
                candidates[j],
            );
        if eliminated(candidates, guess, candidates[n - 1]) < worst_case_upto(
            candidates,
            guess,
            n - 1,
        ) {
            assert(worst_case_upto(candidates, guess, n) == eliminated(
                candidates,
                guess,
                candidates[n - 1],
            ));
        } else {
            assert(worst_case_upto(candidates, guess, n) == eliminated(
                candidates,
                guess,
                candidates[k],
            ));
        }
    } else {
        assert(worst_case_upto(candidates, guess, n) == eliminated(
            candidates,
            guess,
            candidates[0],
        ));
    }
}

/// Among the first `n` words of `source`, the position of the one with the
/// greatest worst case; of several such, the last.
pub open spec fn best_index_upto<const N: usize>(
    source: Seq<Word<N>>,
    candidates: Seq<Word<N>>,
    n: int,
) -> int
    decreases n,
{
    if n <= 1 {
        0
    } else {
        let before = best_index_upto(source, candidates, n - 1);
        if worst_case(candidates, source[n - 1]) >= worst_case(candidates, source[before]) {
            n - 1
        } else {
            before
        }
    }
}

/// The position in `source` of the word to propose.
pub open spec fn best_index<const N: usize>(
    source: Seq<Word<N>>,
    candidates: Seq<Word<N>>,
) -> int {
    best_index_upto(source, candidates, source.len() as int)
}

/// The chosen position holds a word whose worst case no word of the source
/// exceeds and no later word of the source equals.
pub proof fn lemma_best_index_is_last_maximum<const N: usize>(
    source: Seq<Word<N>>,
    candidates: Seq<Word<N>>,
    n: int,
)
    requires
        1 <= n <= source.len(),
    ensures
        0 <= best_index_upto(source, candidates, n) < n,
        forall|j: int|
            0 <= j < n ==> worst_case(candidates, #[trigger] source[j]) <= worst_case(
                candidates,
                source[best_index_upto(source, candidates, n)],
            ),
        forall|j: int|
            best_index_upto(source, candidates, n) < j < n ==> worst_case(
                candidates,
                #[trigger] source[j],
            ) < worst_case(candidates, source[best_index_upto(source, candidates, n)]),
    decreases n,
{
    if n > 1 {
        lemma_best_index_is_last_maximum(source, candidates, n - 1);
    }
}

/// A player: it proposes guesses and learns from their scores.
pub trait Strategy<const N: usize> {
    /// What the player knows, as plain values.
    type Model;

    /// What this player knows.
    spec fn model(&self) -> Self::Model;

    /// Whether the player can propose a word.
    spec fn can_guess(m: Self::Model) -> bool;

    /// Whether the player has made a guess, so that a score can be taken.
    spec fn awaits_score(m: Self::Model) -> bool;

    /// The word that the player proposes next.
    spec fn next_guess(m: Self::Model) -> Word<N>;

    /// What the player knows after proposing its next word.
    spec fn guessed(m: Self::Model) -> Self::Model;

    /// What the player knows after its last guess earned `score`.
    spec fn scored(m: Self::Model, score: Seq<LetterScore>) -> Self::Model;

    /// Tells whether the player can propose a word.
    fn ready(&self) -> (ready: bool)
        ensures
            ready == Self::can_guess(self.model()),
    ;

    /// Proposes the next guess.
    fn make_guess(&mut self) -> (guess: Word<N>)
        requires
            Self::can_guess(old(self).model()),
        ensures
            guess == Self::next_guess(old(self).model()),
            final(self).model() == Self::guessed(old(self).model()),
            Self::awaits_score(final(self).model()),
    ;

    /// Takes the score that the last guess earned.
    fn receive_score(&mut self, score: &Score<N>)
        requires
            Self::awaits_score(old(self).model()),
        ensures
            final(self).model() == Self::scored(old(self).model(), score@),
    ;
}

/// The letters among the first `n` of `guess` that `score` marks as being
/// in the right place.
pub open spec fn right_place_upto(guess: Seq<char>, score: Seq<LetterScore>, n: int) -> Set<char> {
    Set::new(
        |c: char|
            exists|i: int|
                0 <= i < n && i < guess.len() && i < score.len() && guess[i] == c && score[i]
                    == LetterScore::RightPlace,
    )
}

/// The letters of `guess` that `score` marks as being in the right place.
pub open spec fn right_place_letters(guess: Seq<char>, score: Seq<LetterScore>) -> Set<char> {
    right_place_upto(guess, score, guess.len() as int)
}

/// One more position adds its letter where the score marks it, and nothing
/// otherwise.
proof fn lemma_right_place_step(guess: Seq<char>, score: Seq<LetterScore>, n: int)
    requires
        0 <= n < guess.len(),
        n < score.len(),
    ensures
        right_place_upto(guess, score, n + 1) == if score[n] == LetterScore::RightPlace {
            right_place_upto(guess, score, n).insert(guess[n])
        } else {
            right_place_upto(guess, score, n)
        },
{
    let wider = right_place_upto(guess, score, n + 1);
    let narrower = right_place_upto(guess, score, n);
    assert forall|c: char| narrower.contains(c) implies wider.contains(c) by {
        let i = choose|i: int|
            0 <= i < n && i < guess.len() && i < score.len() && guess[i] == c && score[i]
                == LetterScore::RightPlace;
        assert(0 <= i < n + 1 && guess[i] == c && score[i] == LetterScore::RightPlace);
    }
    if score[n] == LetterScore::RightPlace {
        assert(0 <= n < n + 1 && guess[n] == guess[n] && score[n] == LetterScore::RightPlace);
        assert(wider.contains(guess[n]));
        assert(wider =~= narrower.insert(guess[n]));
    } else {
        assert(wider =~= narrower);
    }
}

/// Whether `letters` holds `c`.
fn holds_letter(letters: &Vec<char>, c: char) -> (found: bool)
    ensures
        found == letters@.contains(c),
{
    let mut i: usize = 0;
    while i < letters.len()
        invariant
            i <= letters@.len(),
            forall|j: int| 0 <= j < i ==> letters@[j] != c,
        decreases letters@.len() - i,
    {
        if letters[i] == c {
            return true;
        }
        i += 1;
    }
    false
}

/// What a solver knows, as plain values.
pub struct SolverView<const N: usize> {
    /// Every word that may be guessed.
    pub dictionary: Seq<Word<N>>,
    /// The words that can still be the secret.
    pub candidates: Seq<Word<N>>,
    /// The guess whose score is awaited or was received last.
    pub last_guess: Option<Word<N>>,
    /// The letters known to stand in their right place.
    pub confirmed: Set<char>,
    /// How many guesses were made.
    pub guesses: nat,
}

/// The words among which the next guess is chosen: the whole dictionary,
/// unless one candidate is left or the last attempt has come, when only a
/// candidate will do.
pub open spec fn guess_source<const N: usize>(v: SolverView<N>) -> Seq<Word<N>> {
    if v.candidates.len() == 1 || v.guesses == LAST_ATTEMPT {
        v.candidates
    } else {
        v.dictionary
    }
}

/// Whether the solver opens with the opening word.
pub open spec fn opens<const N: usize>(v: SolverView<N>) -> bool {
    v.guesses == 0 && opener::<N>() is Some
}

/// Whether the solver can propose a word: a candidate is left, the count of
/// guesses can still grow, and past the opening the source holds a word.
pub open spec fn can_propose<const N: usize>(v: SolverView<N>) -> bool {
    v.candidates.len() > 0 && v.guesses < usize::MAX && (opens(v) || guess_source(v).len() > 0)
}

/// The word that the solver proposes: the opening word first, where there
/// is one, and after that the best word of the source.
pub open spec fn proposal<const N: usize>(v: SolverView<N>) -> Word<N> {
    if opens(v) {
        opener::<N>().unwrap()
    } else {
        guess_source(v)[best_index(guess_source(v), v.candidates)]
    }
}

/// What the solver knows once it has proposed its word.
pub open spec fn after_guess<const N: usize>(v: SolverView<N>) -> SolverView<N> {
    SolverView { last_guess: Some(proposal(v)), guesses: v.guesses + 1, ..v }
}

/// What the solver knows once its last guess has earned `score`.
pub open spec fn after_score<const N: usize>(
    v: SolverView<N>,
    score: Seq<LetterScore>,
) -> SolverView<N> {
    let guess = v.last_guess.unwrap();
    SolverView {
        candidates: narrowed(v.candidates, guess, score),
        confirmed: v.confirmed.union(right_place_letters(guess@, score)),
        ..v
    }
}

/// Proposing a word changes neither the dictionary nor the candidates.
pub proof fn lemma_guess_keeps_candidates<const N: usize>(v: SolverView<N>)
    ensures
        after_guess(v).candidates == v.candidates,
        after_guess(v).dictionary == v.dictionary,
        after_guess(v).confirmed == v.confirmed,
{
}

/// A score never adds a candidate, and the score that the secret gave to
/// the last guess keeps the secret among the candidates.
pub proof fn lemma_score_keeps_secret<const N: usize>(v: SolverView<N>, secret: Word<N>)
    requires
        v.last_guess is Some,
        v.candidates.contains(secret),
    ensures
        after_score(v, score_of(secret@, v.last_guess.unwrap()@)).candidates.contains(secret),
        after_score(v, score_of(secret@, v.last_guess.unwrap()@)).candidates.len()
            <= v.candidates.len(),
{
    let guess = v.last_guess.unwrap();
    lemma_narrowed_keeps_secret(v.candidates, guess, secret);
    lemma_narrowed_no_longer(v.candidates, guess, score_of(secret@, guess@));
}

/// Taking the same score for the same guess a second time changes nothing.
pub proof fn lemma_score_twice<const N: usize>(v: SolverView<N>, score: Seq<LetterScore>)
    requires
        v.last_guess is Some,
    ensures
        after_score(after_score(v, score), score) == after_score(v, score),
{
    let guess = v.last_guess.unwrap();
    lemma_narrowed_idempotent(v.candidates, guess, score);
    let found = right_place_letters(guess@, score);
    assert(v.confirmed.union(found).union(found) =~= v.confirmed.union(found));
}

/// Past the opening, the solver proposes a word of its source: a candidate
/// where one candidate is left or the last attempt has come, and a word of
/// the dictionary otherwise.
pub proof fn lemma_proposal_from_source<const N: usize>(v: SolverView<N>)
    requires
        can_propose(v),
        !opens(v),
    ensures
        guess_source(v).contains(proposal(v)),
        v.candidates.len() == 1 ==> proposal(v) == v.candidates[0],
{
    let source = guess_source(v);
    lemma_best_index_is_last_maximum(source, v.candidates, source.len() as int);
    let k = best_index(source, v.candidates);
    assert(source[k] == proposal(v));
}

/// Every candidate is a word of the dictionary.
pub open spec fn candidates_listed<const N: usize>(v: SolverView<N>) -> bool {
    forall|w: Word<N>| v.candidates.contains(w) ==> v.dictionary.contains(w)
}

/// A solver whose candidates are all listed keeps them so through guesses
/// and scores, and past the opening it proposes a listed word.
pub proof fn lemma_proposal_is_listed<const N: usize>(v: SolverView<N>, score: Seq<LetterScore>)
    requires
        candidates_listed(v),
    ensures
        candidates_listed(after_guess(v)),
        v.last_guess is Some ==> candidates_listed(after_score(v, score)),
        can_propose(v) && !opens(v) ==> v.dictionary.contains(proposal(v)),
{
    if v.last_guess is Some {
        lemma_narrowed_no_longer(v.candidates, v.last_guess.unwrap(), score);
    }
    if can_propose(v) && !opens(v) {
        lemma_proposal_from_source(v);
    }
}

/// A solver that narrows a list of candidates from the scores it receives.
pub struct SimpleStrategy<const N: usize> {
    word_list: WordList<N>,
    viable_words: WordList<N>,
    last_guess: Option<Word<N>>,
    right_place: Vec<char>,
    num_guesses: usize,
}

impl<const N: usize> View for SimpleStrategy<N> {
    type V = SolverView<N>;

    closed spec fn view(&self) -> SolverView<N> {
        SolverView {
            dictionary: self.word_list@,
            candidates: self.viable_words@,
            last_guess: self.last_guess,
            confirmed: self.right_place@.to_set(),
            guesses: self.num_guesses as nat,
        }
    }
}

impl<const N: usize> SimpleStrategy<N> {
    /// A solver for which every word of `word_list` is a candidate.
    pub fn new(word_list: WordList<N>) -> (solver: SimpleStrategy<N>)
        ensures
            solver@ == (SolverView {
                dictionary: word_list@,
                candidates: word_list@,
                last_guess: None,
                confirmed: Set::empty(),
                guesses: 0,
            }),
    {
        let solver = SimpleStrategy {
            word_list: word_list.clone(),
            viable_words: word_list,
            last_guess: None,
            right_place: Vec::new(),
            num_guesses: 0,
        };
        assert(solver.right_place@.to_set() =~= Set::<char>::empty());
        solver
    }

    /// Replaces the candidates and counts one guess as made, so that the
    /// solver goes on from a first guess made elsewhere.
    pub fn set_viable_words(&mut self, viable_words: WordList<N>)
        ensures
            final(self)@ == (SolverView {
                candidates: viable_words@,
                guesses: 1,
                ..old(self)@
            }),
    {
        self.viable_words = viable_words;
        self.num_guesses = 1;
    }

    /// The words that can still be the secret.
    pub fn viable_words(&self) -> (words: &WordList<N>)
        ensures
            words@ == self@.candidates,
    {
        &self.viable_words
    }

    /// How many guesses were made.
    pub fn num_guesses(&self) -> (n: usize)
        ensures
            n == self@.guesses,
    {
        self.num_guesses
    }

    /// How many candidates `guess` rules out when the secret is `secret`.
    fn count_eliminated(&self, guess: &Word<N>, secret: &Word<N>) -> (count: usize)
        ensures
            count == eliminated(self@.candidates, *guess, *secret),
    {
        let ghost out = |c: Word<N>| rules_out(*guess, *secret, c);
        let ghost all = self.viable_words@;
        let score = secret.evaluate_guess(guess);
        let mut count: usize = 0;
        let mut i: usize = 0;
        while i < self.viable_words.0.len()
            invariant
                i <= all.len(),
                all == self.viable_words@,
                out == (|c: Word<N>| rules_out(*guess, *secret, c)),
                score@ == score_of(secret@, guess@),
                count == all.take(i as int).filter(out).len(),
                count <= i,
            decreases all.len() - i,
        {
            let viable_word = self.viable_words.0[i];
            proof {
                reveal(Seq::filter);
                assert(all.take(i as int + 1).drop_last() =~= all.take(i as int));
            }
            if viable_word != *guess {
                let other = viable_word.evaluate_guess(guess);
                if !same_score(&score, &other) {
                    count += 1;
                }
            }
            i += 1;
        }
        assert(all.take(i as int) =~= all);
        count
    }

    /// The number of candidates that `word` is sure to rule out, whichever
    /// candidate is the secret.
    pub fn score(&self, word: &Word<N>) -> (worst: usize)
        requires
            self@.candidates.len() > 0,
        ensures
            worst == worst_case(self@.candidates, *word),
    {
        let mut worst = self.count_eliminated(word, &self.viable_words.0[0]);
        let mut i: usize = 1;
        while i < self.viable_words.0.len()
            invariant
                1 <= i <= self.viable_words@.len(),
                worst == worst_case_upto(self@.candidates, *word, i as int),
            decreases self.viable_words@.len() - i,
        {
            let here = self.count_eliminated(word, &self.viable_words.0[i]);
            if here < worst {
                worst = here;
            }
            i += 1;
        }
        worst
    }

    /// Picks from `source` the word with the greatest worst case; of several
    /// such words, the last.
    fn pick(&self, source: &WordList<N>) -> (guess: Word<N>)
        requires
            source@.len() > 0,
            self@.candidates.len() > 0,
        ensures
            guess == source@[best_index(source@, self@.candidates)],
    {
        let mut best: usize = 0;
        let mut best_score = self.score(&source.0[0]);
        let mut i: usize = 1;
        while i < source.0.len()
            invariant
                1 <= i <= source@.len(),
                self@.candidates.len() > 0,
                best == best_index_upto(source@, self@.candidates, i as int),
                0 <= best < i,
                best_score == worst_case(self@.candidates, source@[best as int]),
            decreases source@.len() - i,
        {
            let here = self.score(&source.0[i]);
            if here >= best_score {
                best = i;
                best_score = here;
            }
            i += 1;
        }
        source.0[best]
    }
}

impl<const N: usize> Strategy<N> for SimpleStrategy<N> {
    type Model = SolverView<N>;

    open spec fn model(&self) -> SolverView<N> {
        self@
    }

    open spec fn can_guess(m: SolverView<N>) -> bool {
        can_propose(m)
    }

    open spec fn awaits_score(m: SolverView<N>) -> bool {
        m.last_guess is Some
    }

    open spec fn next_guess(m: SolverView<N>) -> Word<N> {
        proposal(m)
    }

    open spec fn guessed(m: SolverView<N>) -> SolverView<N> {
        after_guess(m)
    }

    open spec fn scored(m: SolverView<N>, score: Seq<LetterScore>) -> SolverView<N> {
        after_score(m, score)
    }

    fn ready(&self) -> (ready: bool)
        ensures
            ready == can_propose(self@),
    {
        if self.viable_words.0.len() == 0 || self.num_guesses == usize::MAX {
            false
        } else if self.num_guesses == 0 && opening_word::<N>().is_some() {
            true
        } else if self.viable_words.0.len() == 1 || self.num_guesses == LAST_ATTEMPT {
            true
        } else {
            self.word_list.0.len() > 0
        }
    }

    /// Proposes the opening word first, where there is one; after that the
    /// word of the source whose worst case rules out the most candidates.
    fn make_guess(&mut self) -> (guess: Word<N>)
        ensures
            guess == proposal(old(self)@),
            final(self)@ == after_guess(old(self)@),
    {
        let opening = opening_word::<N>();
        let guess = if self.num_guesses == 0 && opening.is_some() {
            opening.unwrap()
        } else if self.viable_words.0.len() == 1 || self.num_guesses == LAST_ATTEMPT {
            self.pick(&self.viable_words)
        } else {
            self.pick(&self.word_list)
        };
        self.last_guess = Some(guess);
        self.num_guesses += 1;
        guess
    }

    /// Drops the candidates that the score rules out and notes the letters
    /// that it puts in their right place.
    fn receive_score(&mut self, score: &Score<N>)
        ensures
            final(self)@ == after_score(old(self)@, score@),
    {
        let last_guess = self.last_guess.unwrap();
        self.viable_words.retain_viable_words(&last_guess, score);
        let ghost before = self.right_place@.to_set();
        let mut i: usize = 0;
        while i < N
            invariant
                i <= N,
                self.word_list == old(self).word_list,
                self.last_guess == old(self).last_guess,
                self.num_guesses == old(self).num_guesses,
                self.viable_words@ == narrowed(old(self).viable_words@, last_guess, score@),
                self.right_place@.to_set() == before.union(
                    right_place_upto(last_guess@, score@, i as int),
                ),
            decreases N - i,
        {
            proof {
                lemma_right_place_step(last_guess@, score@, i as int);
            }
            if score[i] == LetterScore::RightPlace {
                let letter = last_guess.0[i];
                if !holds_letter(&self.right_place, letter) {
                    let ghost so_far = self.right_place@;
                    self.right_place.push(letter);
                    proof {
                        so_far.lemma_push_to_set_commute(letter);
                    }
                    assert(self.right_place@.to_set() =~= so_far.to_set().insert(letter));
                }
                assert(self.right_place@.to_set() =~= before.union(
                    right_place_upto(last_guess@, score@, i as int + 1),
                ));
            }
            i += 1;
        }
    }
}

/// The letter that a typed character stands for: itself for a lower-case
/// letter, its lower-case form for an upper-case letter, and none for
/// anything else.
pub open spec fn letter_of(c: char) -> Option<char> {
    if 'a' <= c && c <= 'z' {
        Some(c)
    } else if 'A' <= c && c <= 'Z' {
        Some(((c as u8) + 32) as char)
    } else {
        None
    }
}

/// Whether every character of `line` is an ASCII character.
pub open spec fn all_ascii(line: Seq<char>) -> bool {
    forall|i: int| 0 <= i < line.len() ==> line[i] <= '\x7f'
}

/// The guess that a typed line stands for: its letters in lower case, where
/// the line is ASCII and holds exactly `N` letters.
pub open spec fn typed_guess<const N: usize>(line: Seq<char>) -> Option<Word<N>> {
    if all_ascii(line) && line.filter_map(|c: char| letter_of(c)).len() == N {
        Some(word_of::<N>(line.filter_map(|c: char| letter_of(c))))
    } else {
        None
    }
}

/// The player at the keyboard. The library reads what was typed; asking for
/// it is the caller's part.
#[derive(Debug, Clone, Copy)]
pub struct StdinGuesser<const N: usize>;

impl<const N: usize> StdinGuesser<N> {
    /// Reads one typed character as a letter.
    pub fn read_letter(c: char) -> (letter: Option<char>)
        ensures
            letter == letter_of(c),
    {
        if 'a' <= c && c <= 'z' {
            Some(c)
        } else if 'A' <= c && c <= 'Z' {
            Some(((c as u8) + 32) as char)
        } else {
            None
        }
    }

    /// Reads a typed line as a guess.
    pub fn parse_guess(line: &str) -> (guess: Option<Word<N>>)
        ensures
            guess == typed_guess::<N>(line@),
    {
        let ghost keep = |c: char| letter_of(c);
        let count = line.unicode_len();
        let mut typed: Vec<char> = Vec::new();
        let mut i: usize = 0;
        while i < count
            invariant
                i <= count,
                count == line@.len(),
                keep == (|c: char| letter_of(c)),
                all_ascii(line@.take(i as int)),
                typed@ == line@.take(i as int).filter_map(keep),
                typed@.len() <= i,
            decreases count - i,
        {
            let c = line.get_char(i);
            proof {
                assert(line@.take(i as int + 1).drop_last() =~= line@.take(i as int));
            }
            if c > '\x7f' {
                assert(line@[i as int] == c);
                return None;
            }
            match Self::read_letter(c) {
                Some(letter) => {
                    typed.push(letter);
                    assert(typed@ =~= line@.take(i as int).filter_map(keep) + seq![letter]);
                },
                None => {},
            }
            assert(all_ascii(line@.take(i as int + 1))) by {
                let shorter = line@.take(i as int);
                let longer = line@.take(i as int + 1);
                assert forall|j: int| 0 <= j < longer.len() implies #[trigger] longer[j]
                    <= '\x7f' by {
                    if j < i {
                        assert(shorter[j] == longer[j]);
                    }
                }
            }
            i += 1;
        }
        assert(line@.take(i as int) =~= line@);
        if typed.len() != N {
            return None;
        }
        let mut letters: [char; N] = ['a'; N];
        let mut k: usize = 0;
        while k < N
            invariant
                k <= N,
                typed@.len() == N,
                forall|j: int| 0 <= j < k ==> letters@[j] == typed@[j],
            decreases N - k,
        {
            letters[k] = typed[k];
            k += 1;
        }
        let word = Word(letters);
        proof {
            assert(word@ =~= typed@);
            lemma_word_by_letters(word, word_of::<N>(typed@));
        }
        Some(word)
    }
}

/// Who proposes the guesses.
pub enum StdinOrAlgo<const N: usize> {
    /// The player at the keyboard.
    Stdin(StdinGuesser<N>),
    /// The solver.
    Algo(SimpleStrategy<N>),
}

impl<const N: usize> StdinOrAlgo<N> {
    /// Whether the player at the keyboard proposes the guesses.
    pub fn is_stdin(&self) -> (stdin: bool)
        ensures
            stdin == (self is Stdin),
    {
        match self {
            StdinOrAlgo::Stdin(_) => true,
            StdinOrAlgo::Algo(_) => false,
        }
    }
}

/// A game that a person starts and may hand over to the solver, as plain
/// values.
pub struct HandoverView<const N: usize> {
    /// Every word that may be guessed.
    pub dictionary: Seq<Word<N>>,
    /// The words that can still be the secret, while the person plays.
    pub candidates: Seq<Word<N>>,
    /// The last guess that the person made.
    pub last_guess: Option<Word<N>>,
    /// What the solver knows, once it has taken over.
    pub solver: Option<SolverView<N>>,
}

/// The game once the solver has taken over: the solver knows the dictionary
/// and the candidates that were left, has made no guess of its own, and
/// counts one guess as made, so that it does not open anew.
pub open spec fn handed_over<const N: usize>(v: HandoverView<N>) -> HandoverView<N> {
    HandoverView {
        candidates: Seq::empty(),
        solver: Some(
            SolverView {
                dictionary: v.dictionary,
                candidates: v.candidates,
                last_guess: None,
                confirmed: Set::empty(),
                guesses: 1,
            },
        ),
        ..v
    }
}

/// Whose turn it is to guess.
#[derive(Debug, Clone, Copy, PartialEq, Eq)]
pub enum Turn<const N: usize> {
    /// The person plays: the caller asks for a guess and records it.
    Person,
    /// The solver plays, and this is its guess.
    Solver(Word<N>),
    /// The solver plays and has no word to propose.
    Stuck,
}

/// The game after the next turn has been dealt: handed over first where the
/// person plays and asks for it, and with the solver's guess made where the
/// solver plays and can propose one.
pub open spec fn after_turn<const N: usize>(v: HandoverView<N>, hand_over: bool) -> HandoverView<
    N,
> {
    let w = if v.solver is None && hand_over {
        handed_over(v)
    } else {
        v
    };
    match w.solver {
        Some(solver) if can_propose(solver) => HandoverView {
            solver: Some(after_guess(solver)),
            ..w
        },
        _ => w,
    }
}

/// Whose turn the next one is, and the solver's guess where it is the
/// solver's.
pub open spec fn next_turn<const N: usize>(v: HandoverView<N>, hand_over: bool) -> Turn<N> {
    let w = if v.solver is None && hand_over {
        handed_over(v)
    } else {
        v
    };
    match w.solver {
        None => Turn::Person,
        Some(solver) => if can_propose(solver) {
            Turn::Solver(proposal(solver))
        } else {
            Turn::Stuck
        },
    }
}

/// A player that starts at the keyboard and can hand the game over to the
/// solver, which goes on from the candidates that are left.
pub struct StdinThenSolver<const N: usize> {
    word_list: WordList<N>,
    last_guess: Option<Word<N>>,
    viable_words: WordList<N>,
    strategy: StdinOrAlgo<N>,
}

impl<const N: usize> View for StdinThenSolver<N> {
    type V = HandoverView<N>;

    closed spec fn view(&self) -> HandoverView<N> {
        HandoverView {
            dictionary: self.word_list@,
            candidates: self.viable_words@,
            last_guess: self.last_guess,
            solver: match self.strategy {
                StdinOrAlgo::Stdin(_) => None,
                StdinOrAlgo::Algo(solver) => Some(solver@),
            },
        }
    }
}

impl<const N: usize> StdinThenSolver<N> {
    /// A game at the keyboard in which every word of `word_list` is a
    /// candidate.
    pub fn new(word_list: WordList<N>) -> (player: StdinThenSolver<N>)
        ensures
            player@ == (HandoverView {
                dictionary: word_list@,
                candidates: word_list@,
                last_guess: None,
                solver: None,
            }),
    {
        StdinThenSolver {
            strategy: StdinOrAlgo::Stdin(StdinGuesser),
            viable_words: word_list.clone(),
            word_list,
            last_guess: None,
        }
    }

    /// Whether the person still plays.
    pub fn is_stdin(&self) -> (stdin: bool)
        ensures
            stdin == (self@.solver is None),
    {
        self.strategy.is_stdin()
    }

    /// How many words can still be the secret, while the person plays.
    pub fn viable_count(&self) -> (count: usize)
        ensures
            count == self@.candidates.len(),
    {
        self.viable_words.0.len()
    }

    /// Hands the game over to the solver: it takes the candidates that are
    /// left and counts one guess as made, so that it does not open anew.
    pub fn start_solver(&mut self)
        requires
            old(self)@.solver is None,
        ensures
            final(self)@ == handed_over(old(self)@),
    {
        let mut algo = SimpleStrategy::new(self.word_list.clone());
        let mut viable_words = WordList(Vec::new());
        std::mem::swap(&mut viable_words, &mut self.viable_words);
        algo.set_viable_words(viable_words);
        self.strategy = StdinOrAlgo::Algo(algo);
    }

    /// Deals the next turn. While the person plays, `hand_over` tells
    /// whether the solver shall take over from here; the solver, once it
    /// plays, makes its guess.
    pub fn make_guess(&mut self, hand_over: bool) -> (turn: Turn<N>)
        ensures
            turn == next_turn(old(self)@, hand_over),
            final(self)@ == after_turn(old(self)@, hand_over),
    {
        if self.is_stdin() && hand_over {
            self.start_solver();
        }
        if self.is_stdin() {
            Turn::Person
        } else if self.solver_ready() {
            Turn::Solver(self.solver_guess())
        } else {
            Turn::Stuck
        }
    }

    /// Records the guess that the person made.
    pub fn note_guess(&mut self, guess: Word<N>)
        ensures
            final(self)@ == (HandoverView { last_guess: Some(guess), ..old(self)@ }),
    {
        self.last_guess = Some(guess);
    }

    /// Whether the solver has taken over and can propose a word.
    pub fn solver_ready(&self) -> (ready: bool)
        ensures
            ready == (self@.solver matches Some(v) && can_propose(v)),
    {
        match &self.strategy {
            StdinOrAlgo::Stdin(_) => false,
            StdinOrAlgo::Algo(solver) => solver.ready(),
        }
    }

    /// Lets the solver propose the next guess.
    pub fn solver_guess(&mut self) -> (guess: Word<N>)
        requires
            old(self)@.solver matches Some(v) && can_propose(v),
        ensures
            guess == proposal(old(self)@.solver.unwrap()),
            final(self)@ == (HandoverView {
                solver: Some(after_guess(old(self)@.solver.unwrap())),
                ..old(self)@
            }),
    {
        let proposed = match &mut self.strategy {
            StdinOrAlgo::Stdin(_) => None,
            StdinOrAlgo::Algo(solver) => Some(solver.make_guess()),
        };
        proposed.unwrap()
    }

    /// Whether a score can be taken: whoever plays has made a guess.
    pub open spec fn awaits_score(v: HandoverView<N>) -> bool {
        match v.solver {
            None => v.last_guess is Some,
            Some(solver) => solver.last_guess is Some,
        }
    }

    /// Tells whether a score can be taken.
    pub fn has_guessed(&self) -> (guessed: bool)
        ensures
            guessed == Self::awaits_score(self@),
    {
        match &self.strategy {
            StdinOrAlgo::Stdin(_) => self.last_guess.is_some(),
            StdinOrAlgo::Algo(solver) => solver.last_guess.is_some(),
        }
    }

    /// Takes the score of the last guess: while the person plays, the
    /// candidates are narrowed here; afterwards the solver takes it.
    pub fn receive_score(&mut self, score: &Score<N>)
        requires
            Self::awaits_score(old(self)@),
        ensures
            final(self)@ == match old(self)@.solver {
                None => HandoverView {
                    candidates: narrowed(
                        old(self)@.candidates,
                        old(self)@.last_guess.unwrap(),
                        score@,
                    ),
                    ..old(self)@
                },
                Some(solver) => HandoverView {
                    solver: Some(after_score(solver, score@)),
                    ..old(self)@
                },
            },
    {
        match &mut self.strategy {
            StdinOrAlgo::Stdin(_) => {
                let last_guess = self.last_guess.unwrap();
                self.viable_words.retain_viable_words(&last_guess, score);
            },
            StdinOrAlgo::Algo(solver) => solver.receive_score(score),
        }
    }
}

} // verus!
