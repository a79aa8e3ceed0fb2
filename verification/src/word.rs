//! Words, per-letter outcomes, and the scoring of a guess against a secret.

use std::collections::HashMap;
use vstd::prelude::*;
use vstd::std_specs::cmp::PartialEqSpecImpl;
use vstd::std_specs::convert::FromSpecImpl;
use vstd::std_specs::convert::TryFromSpecImpl;
use vstd::string::StrSliceExecFns;

verus! {

broadcast use vstd::std_specs::hash::group_hash_axioms;

/// The outcome for one letter of a guess.
#[derive(Debug, Clone, Copy, PartialEq, Eq, Structural)]
pub enum LetterScore {
    /// The letter matches the secret at this position.
    RightPlace,
    /// The letter occurs in the secret at another position that no other
    /// letter of the guess has claimed.
    RightLetter,
    /// The letter earns no further match.
    Wrong,
}

/// One outcome per position of a guess.
pub type Score<const N: usize> = [LetterScore; N];

/// A word of exactly `N` letters.
#[derive(Debug, Clone, Copy)]
pub struct Word<const N: usize>(pub [char; N]);

impl<const N: usize> View for Word<N> {
    type V = Seq<char>;

    open spec fn view(&self) -> Seq<char> {
        self.0@
    }
}

/// The number of positions `k < n` at which `a` holds the letter `c` and `b`
/// does not.
pub open spec fn count_unmatched(a: Seq<char>, b: Seq<char>, c: char, n: int) -> nat
    decreases n,
{
    if n <= 0 {
        0
    } else {
        count_unmatched(a, b, c, n - 1) + if a[n - 1] == c && b[n - 1] != c {
            1nat
        } else {
            0nat
        }
    }
}

/// The outcome at position `i` of `guess` against `secret`.
///
/// An exact match is `RightPlace`. Otherwise the letter is `RightLetter` as
/// long as the secret still has an unmatched copy of it left over after the
/// earlier unmatched copies in the guess have each claimed one.
pub open spec fn letter_outcome(secret: Seq<char>, guess: Seq<char>, i: int) -> LetterScore {
    if guess[i] == secret[i] {
        LetterScore::RightPlace
    } else if count_unmatched(guess, secret, guess[i], i) < count_unmatched(
        secret,
        guess,
        guess[i],
        secret.len() as int,
    ) {
        LetterScore::RightLetter
    } else {
        LetterScore::Wrong
    }
}

/// The score of `guess` against `secret`.
pub open spec fn score_of(secret: Seq<char>, guess: Seq<char>) -> Seq<LetterScore> {
    Seq::new(guess.len(), |i: int| letter_outcome(secret, guess, i))
}

/// A count over the first `n` positions is at most `n`.
pub proof fn lemma_count_unmatched_bound(a: Seq<char>, b: Seq<char>, c: char, n: int)
    requires
        0 <= n,
    ensures
        count_unmatched(a, b, c, n) <= n,
    decreases n,
{
    if n > 0 {
        lemma_count_unmatched_bound(a, b, c, n - 1);
    }
}

/// How many unmatched copies of `c` the secret has left once the unmatched
/// copies of `c` among the first `i` letters of the guess have each claimed one.
spec fn unclaimed(secret: Seq<char>, guess: Seq<char>, c: char, i: int) -> int {
    let total = count_unmatched(secret, guess, c, secret.len() as int);
    let claims = count_unmatched(guess, secret, c, i);
    if claims <= total {
        total - claims
    } else {
        0
    }
}

/// Distinct letters have distinct code points.
proof fn lemma_code_point_injective(c: char, d: char)
    requires
        c != d,
    ensures
        c as u32 != d as u32,
{
    vstd::utf8::char_u32_cast(c, c as u32);
    vstd::utf8::char_u32_cast(d, d as u32);
}

/// What the availability counter holds for the letter `c`.
spec fn available(counter: Map<u32, usize>, c: char) -> int {
    if counter.contains_key(c as u32) {
        counter[c as u32] as int
    } else {
        0
    }
}

impl<const N: usize> PartialEq for Word<N> {
    /// Two words are equal when they hold the same letter at every position.
    fn eq(&self, other: &Word<N>) -> (same: bool) {
        let mut i: usize = 0;
        while i < N
            invariant
                i <= N,
                forall|j: int| 0 <= j < i ==> self@[j] == other@[j],
            decreases N - i,
        {
            if self.0[i] != other.0[i] {
                return false;
            }
            i += 1;
        }
        proof {
            assert(self@ =~= other@);
            lemma_word_by_letters(*self, *other);
        }
        true
    }
}

impl<const N: usize> Eq for Word<N> {

}

impl<const N: usize> PartialEqSpecImpl for Word<N> {
    open spec fn obeys_eq_spec() -> bool {
        true
    }

    open spec fn eq_spec(&self, other: &Word<N>) -> bool {
        *self == *other
    }
}

/// Why a text could not be read as a word: it has `found` letters where
/// `expected` are needed.
#[derive(Debug, Clone, Copy, PartialEq, Eq, Structural)]
pub struct LengthMismatch {
    pub expected: usize,
    pub found: usize,
}

/// The word that holds exactly the letters `letters`.
pub open spec fn word_of<const N: usize>(letters: Seq<char>) -> Word<N>
    recommends
        letters.len() == N,
{
    choose|w: Word<N>| w@ == letters
}

/// A text of `N` letters read as a word; any other length is a mismatch.
pub open spec fn parse_word<const N: usize>(letters: Seq<char>) -> Result<Word<N>, LengthMismatch> {
    if letters.len() == N {
        Ok(word_of::<N>(letters))
    } else {
        Err(LengthMismatch { expected: N, found: letters.len() as usize })
    }
}

/// An array that holds the first `k` of `items` at its first `k` positions.
spec fn array_upto<T: Copy, const N: usize>(items: Seq<T>, k: int) -> [T; N]
    decreases k,
{
    if k <= 0 {
        vstd::array::spec_array_fill_for_copy_type::<T, N>(arbitrary())
    } else {
        vstd::array::spec_array_update(array_upto::<T, N>(items, k - 1), k - 1, items[k - 1])
    }
}

proof fn lemma_array_upto<T: Copy, const N: usize>(items: Seq<T>, k: int)
    requires
        0 <= k <= N,
        items.len() == N,
    ensures
        forall|j: int| 0 <= j < k ==> array_upto::<T, N>(items, k)@[j] == items[j],
    decreases k,
{
    if k > 0 {
        lemma_array_upto::<T, N>(items, k - 1);
        vstd::array::axiom_spec_array_update(
            array_upto::<T, N>(items, k - 1),
            k - 1,
            items[k - 1],
        );
    }
}

/// Every sequence of `N` items is held by some array.
proof fn lemma_array_exists<T: Copy, const N: usize>(items: Seq<T>)
    requires
        items.len() == N,
    ensures
        exists|a: [T; N]| a@ == items,
{
    lemma_array_upto::<T, N>(items, N as int);
    let a = array_upto::<T, N>(items, N as int);
    assert(a@ =~= items);
}

/// The word made of `N` letters holds exactly those letters.
pub proof fn lemma_word_of_letters<const N: usize>(letters: Seq<char>)
    requires
        letters.len() == N,
    ensures
        word_of::<N>(letters)@ == letters,
{
    lemma_array_exists::<char, N>(letters);
    let a = choose|a: [char; N]| a@ == letters;
    assert(Word(a)@ == letters);
}

/// A word is determined by its letters.
pub proof fn lemma_word_by_letters<const N: usize>(a: Word<N>, b: Word<N>)
    requires
        a@ == b@,
    ensures
        a == b,
{
    assert(a.0 =~= b.0);
}

impl<'a, const N: usize> TryFrom<&'a str> for Word<N> {
    type Error = LengthMismatch;

    /// Reads a text as a word, one letter per character.
    fn try_from(s: &'a str) -> (r: Result<Word<N>, LengthMismatch>)
        ensures
            r == parse_word::<N>(s@),
            r matches Ok(w) ==> w@ == s@,
    {
        let found = s.unicode_len();
        if found != N {
            return Err(LengthMismatch { expected: N, found });
        }
        let mut letters: [char; N] = ['a'; N];
        let mut i: usize = 0;
        while i < N
            invariant
                i <= N,
                s@.len() == N,
                letters@.len() == N,
                forall|j: int| 0 <= j < i ==> letters@[j] == s@[j],
            decreases N - i,
        {
            letters[i] = s.get_char(i);
            i += 1;
        }
        let word = Word(letters);
        proof {
            assert(word@ =~= s@);
            lemma_word_by_letters(word, word_of::<N>(s@));
        }
        Ok(word)
    }
}

impl<'a, const N: usize> TryFromSpecImpl<&'a str> for Word<N> {
    open spec fn obeys_try_from_spec() -> bool {
        true
    }

    open spec fn try_from_spec(s: &'a str) -> Result<Word<N>, LengthMismatch> {
        parse_word::<N>(s@)
    }
}

/// `String::push` of std: the text afterwards is the text before with `c`
/// appended as its last character.
#[verifier::external_body]
fn push_char(text: &mut String, c: char)
    ensures
        final(text)@ == old(text)@.push(c),
{
    text.push(c);
}

impl<const N: usize> Word<N> {
    /// The word as text, one character per letter.
    pub fn to_text(&self) -> (text: String)
        ensures
            text@ == self@,
    {
        let mut text = String::new();
        let mut i: usize = 0;
        while i < N
            invariant
                i <= N,
                text@ == self@.take(i as int),
            decreases N - i,
        {
            push_char(&mut text, self.0[i]);
            assert(self@.take(i as int + 1) =~= self@.take(i as int).push(self@[i as int]));
            i += 1;
        }
        assert(self@.take(i as int) =~= self@);
        text
    }

    /// Scores `guess` against `self` as the secret.
    pub fn evaluate_guess(&self, guess: &Word<N>) -> (score: Score<N>)
        ensures
            score@ == score_of(self@, guess@),
    {
        let mut score: Score<N> = [LetterScore::Wrong; N];
        assert forall|j: int| 0 <= j < N implies score@[j] == LetterScore::Wrong by {
            vstd::array::axiom_spec_array_fill_for_copy_type::<LetterScore, N>(LetterScore::Wrong);
        }
        let mut unused_letters: HashMap<u32, usize> = HashMap::new();
        let mut i: usize = 0;
        while i < N
            invariant
                i <= N,
                score@.len() == N,
                forall|j: int|
                    0 <= j < i ==> score@[j] == if self@[j] == guess@[j] {
                        LetterScore::RightPlace
                    } else {
                        LetterScore::Wrong
                    },
                forall|j: int| i <= j < N ==> score@[j] == LetterScore::Wrong,
                forall|c: char| #[trigger]
                    available(unused_letters@, c) == count_unmatched(self@, guess@, c, i as int),
            decreases N - i,
        {
            let letter = self.0[i];
            if letter == guess.0[i] {
                score[i] = LetterScore::RightPlace;
            } else {
                let key = letter as u32;
                let seen: usize = match unused_letters.get(&key) {
                    Some(n) => *n,
                    None => 0,
                };
                proof {
                    assert(seen == available(unused_letters@, letter));
                    lemma_count_unmatched_bound(self@, guess@, letter, i as int);
                }
                let ghost before = unused_letters@;
                unused_letters.insert(key, seen + 1);
                assert(letter == self@[i as int]);
                assert(guess@[i as int] != letter);
                assert forall|c: char| #[trigger]
                    available(unused_letters@, c) == count_unmatched(
                        self@,
                        guess@,
                        c,
                        i as int + 1,
                    ) by {
                    if c != letter {
                        lemma_code_point_injective(c, letter);
                        assert(available(unused_letters@, c) == available(before, c));
                    }
                }
            }
            i += 1;
        }
        i = 0;
        while i < N
            invariant
                i <= N,
                score@.len() == N,
                forall|j: int| 0 <= j < i ==> score@[j] == letter_outcome(self@, guess@, j),
                forall|j: int|
                    i <= j < N ==> score@[j] == if self@[j] == guess@[j] {
                        LetterScore::RightPlace
                    } else {
                        LetterScore::Wrong
                    },
                forall|c: char| #[trigger]
                    available(unused_letters@, c) == unclaimed(self@, guess@, c, i as int),
            decreases N - i,
        {
            let letter = guess.0[i];
            if letter != self.0[i] {
                let key = letter as u32;
                let left: usize = match unused_letters.get(&key) {
                    Some(n) => *n,
                    None => 0,
                };
                assert(left == available(unused_letters@, letter));
                let ghost before = unused_letters@;
                if left > 0 {
                    score[i] = LetterScore::RightLetter;
                    unused_letters.insert(key, left - 1);
                }
                assert(letter == guess@[i as int]);
                assert(self@[i as int] != letter);
                assert forall|c: char| #[trigger]
                    available(unused_letters@, c) == unclaimed(self@, guess@, c, i as int + 1) by {
                    if c != letter {
                        lemma_code_point_injective(c, letter);
                    }
                    assert(available(before, c) == unclaimed(self@, guess@, c, i as int));
                }
            } else {
                assert forall|c: char| #[trigger]
                    available(unused_letters@, c) == unclaimed(self@, guess@, c, i as int + 1) by {
                    assert(available(unused_letters@, c) == unclaimed(self@, guess@, c, i as int));
                }
            }
            i += 1;
        }
        assert(score@ =~= score_of(self@, guess@));
        score
    }
}

/// The score that holds exactly the outcomes `outcomes`.
pub open spec fn score_array<const N: usize>(outcomes: Seq<LetterScore>) -> Score<N>
    recommends
        outcomes.len() == N,
{
    choose|s: Score<N>| s@ == outcomes
}

/// The score made of `N` outcomes holds exactly those outcomes.
pub proof fn lemma_score_array_outcomes<const N: usize>(outcomes: Seq<LetterScore>)
    requires
        outcomes.len() == N,
    ensures
        score_array::<N>(outcomes)@ == outcomes,
{
    lemma_array_exists::<LetterScore, N>(outcomes);
}

/// A score is determined by its outcomes.
pub proof fn lemma_score_by_outcomes<const N: usize>(a: Score<N>, b: Score<N>)
    requires
        a@ == b@,
    ensures
        a == b,
{
    assert(a =~= b);
}

/// Whether every outcome is `RightPlace`.
pub open spec fn all_right_place(score: Seq<LetterScore>) -> bool {
    forall|i: int| 0 <= i < score.len() ==> score[i] == LetterScore::RightPlace
}

/// Tells whether every outcome of `score` is `RightPlace`.
pub fn is_win<const N: usize>(score: &Score<N>) -> (win: bool)
    ensures
        win == all_right_place(score@),
{
    let mut i: usize = 0;
    while i < N
        invariant
            i <= N,
            forall|j: int| 0 <= j < i ==> score@[j] == LetterScore::RightPlace,
        decreases N - i,
    {
        if score[i] != LetterScore::RightPlace {
            return false;
        }
        i += 1;
    }
    true
}

/// Whether two scores hold the same outcome at every position.
pub fn same_score<const N: usize>(a: &Score<N>, b: &Score<N>) -> (same: bool)
    ensures
        same == (a@ == b@),
{
    let mut i: usize = 0;
    while i < N
        invariant
            i <= N,
            forall|j: int| 0 <= j < i ==> a@[j] == b@[j],
        decreases N - i,
    {
        if a[i] != b[i] {
            return false;
        }
        i += 1;
    }
    assert(a@ =~= b@);
    true
}

/// Whether `candidate` could be the secret, given that `guess` earned `score`.
pub open spec fn is_viable<const N: usize>(
    candidate: Word<N>,
    guess: Word<N>,
    score: Seq<LetterScore>,
) -> bool {
    score_of(candidate@, guess@) == score
}

/// The words of `words`, in order, that could still be the secret after
/// `guess` earned `score`.
pub open spec fn narrowed<const N: usize>(
    words: Seq<Word<N>>,
    guess: Word<N>,
    score: Seq<LetterScore>,
) -> Seq<Word<N>> {
    words.filter(|w: Word<N>| is_viable(w, guess, score))
}

/// Every outcome is `Wrong`.
pub open spec fn all_wrong(score: Seq<LetterScore>) -> bool {
    forall|i: int| 0 <= i < score.len() ==> score[i] == LetterScore::Wrong
}

/// No letter of `a` is a letter of `b`.
pub open spec fn disjoint_letters(a: Seq<char>, b: Seq<char>) -> bool {
    forall|i: int, j: int| 0 <= i < a.len() && 0 <= j < b.len() ==> a[i] != b[j]
}

/// A word scored against itself earns `RightPlace` at every position.
pub proof fn lemma_score_of_self(a: Seq<char>)
    ensures
        score_of(a, a).len() == a.len(),
        all_right_place(score_of(a, a)),
{
}

/// A guess of the secret's length earns `RightPlace` at every position only
/// where it is the secret.
pub proof fn lemma_win_is_secret(secret: Seq<char>, guess: Seq<char>)
    requires
        secret.len() == guess.len(),
    ensures
        all_right_place(score_of(secret, guess)) <==> guess == secret,
{
    if all_right_place(score_of(secret, guess)) {
        assert forall|i: int| 0 <= i < guess.len() implies guess[i] == secret[i] by {
            assert(score_of(secret, guess)[i] == LetterScore::RightPlace);
        }
        assert(guess =~= secret);
    }
}

/// A letter that `a` does not hold among its first `n` is counted nowhere.
proof fn lemma_count_absent(a: Seq<char>, b: Seq<char>, c: char, n: int)
    requires
        0 <= n <= a.len(),
        forall|k: int| 0 <= k < n ==> a[k] != c,
    ensures
        count_unmatched(a, b, c, n) == 0,
    decreases n,
{
    if n > 0 {
        lemma_count_absent(a, b, c, n - 1);
    }
}

/// Two words of equal length that share no letter earn `Wrong` at every
/// position, whichever of them is the secret.
pub proof fn lemma_disjoint_words_all_wrong(a: Seq<char>, b: Seq<char>)
    requires
        a.len() == b.len(),
        disjoint_letters(a, b),
    ensures
        all_wrong(score_of(a, b)),
        all_wrong(score_of(b, a)),
{
    assert forall|i: int| 0 <= i < a.len() implies score_of(a, b)[i] == LetterScore::Wrong
        && score_of(b, a)[i] == LetterScore::Wrong by {
        assert(a[i] != b[i]);
        assert forall|k: int| 0 <= k < a.len() implies a[k] != b[i] by {}
        assert forall|k: int| 0 <= k < b.len() implies b[k] != a[i] by {}
        lemma_count_absent(a, b, b[i], a.len() as int);
        lemma_count_absent(b, a, a[i], b.len() as int);
    }
}

/// Keeping by a test what was already kept by that test changes nothing.
pub proof fn lemma_filter_twice<A>(xs: Seq<A>, keep: spec_fn(A) -> bool)
    ensures
        xs.filter(keep).filter(keep) == xs.filter(keep),
    decreases xs.len(),
{
    reveal(Seq::filter);
    if xs.len() > 0 {
        let rest = xs.drop_last();
        lemma_filter_twice(rest, keep);
        if keep(xs.last()) {
            let kept = rest.filter(keep).push(xs.last());
            assert(kept.drop_last() =~= rest.filter(keep));
            assert(kept.last() == xs.last());
        }
    }
}

/// Narrowing never adds a word: the result is no longer than the list.
pub proof fn lemma_narrowed_no_longer<const N: usize>(
    words: Seq<Word<N>>,
    guess: Word<N>,
    score: Seq<LetterScore>,
)
    ensures
        narrowed(words, guess, score).len() <= words.len(),
        forall|w: Word<N>| narrowed(words, guess, score).contains(w) ==> words.contains(w),
{
    let keep = |w: Word<N>| is_viable(w, guess, score);
    words.lemma_filter_len(keep);
    assert forall|w: Word<N>| narrowed(words, guess, score).contains(w) implies words.contains(
        w,
    ) by {
        words.lemma_filter_contains_rev(keep, w);
    }
}

/// Narrowing by the score that the secret gave keeps the secret: a listed
/// word stays exactly when it would have earned the observed score.
pub proof fn lemma_narrowed_keeps_secret<const N: usize>(
    words: Seq<Word<N>>,
    guess: Word<N>,
    secret: Word<N>,
)
    requires
        words.contains(secret),
    ensures
        narrowed(words, guess, score_of(secret@, guess@)).contains(secret),
{
    let score = score_of(secret@, guess@);
    let keep = |w: Word<N>| is_viable(w, guess, score);
    let i = choose|i: int| 0 <= i < words.len() && words[i] == secret;
    assert(keep(words[i]));
    words.lemma_filter_contains(keep, i);
}

/// Narrowing a list in which no word occurs twice leaves such a list.
pub proof fn lemma_narrowed_keeps_unique<const N: usize>(
    words: Seq<Word<N>>,
    guess: Word<N>,
    score: Seq<LetterScore>,
)
    requires
        words.no_duplicates(),
    ensures
        narrowed(words, guess, score).no_duplicates(),
    decreases words.len(),
{
    reveal(Seq::filter);
    let keep = |w: Word<N>| is_viable(w, guess, score);
    if words.len() > 0 {
        let rest = words.drop_last();
        let last = words.last();
        lemma_narrowed_keeps_unique(rest, guess, score);
        if keep(last) {
            let kept = rest.filter(keep);
            assert(!kept.contains(last)) by {
                if kept.contains(last) {
                    rest.lemma_filter_contains_rev(keep, last);
                    let i = choose|i: int| 0 <= i < rest.len() && rest[i] == last;
                    assert(words[i] == words[words.len() - 1]);
                }
            }
            assert(kept.push(last).no_duplicates());
        }
    }
}

/// Narrowing a second time by the same guess and score changes nothing.
pub proof fn lemma_narrowed_idempotent<const N: usize>(
    words: Seq<Word<N>>,
    guess: Word<N>,
    score: Seq<LetterScore>,
)
    ensures
        narrowed(narrowed(words, guess, score), guess, score) == narrowed(words, guess, score),
{
    lemma_filter_twice(words, |w: Word<N>| is_viable(w, guess, score));
}

/// An ordered list of words.
#[derive(Debug)]
pub struct WordList<const N: usize>(pub Vec<Word<N>>);

impl<const N: usize> View for WordList<N> {
    type V = Seq<Word<N>>;

    open spec fn view(&self) -> Seq<Word<N>> {
        self.0@
    }
}

impl<const N: usize> Clone for WordList<N> {
    fn clone(&self) -> (copy: WordList<N>)
        ensures
            copy@ == self@,
    {
        let mut words: Vec<Word<N>> = Vec::new();
        let mut i: usize = 0;
        while i < self.0.len()
            invariant
                i <= self@.len(),
                words@ == self@.take(i as int),
            decreases self@.len() - i,
        {
            words.push(self.0[i]);
            assert(self@.take(i as int + 1) =~= self@.take(i as int).push(self@[i as int]));
            i += 1;
        }
        assert(self@.take(i as int) =~= self@);
        WordList(words)
    }
}

impl<const N: usize> From<Vec<Word<N>>> for WordList<N> {
    fn from(vec: Vec<Word<N>>) -> (list: WordList<N>)
        ensures
            list@ == vec@,
    {
        WordList(vec)
    }
}

impl<const N: usize> FromSpecImpl<Vec<Word<N>>> for WordList<N> {
    open spec fn obeys_from_spec() -> bool {
        true
    }

    open spec fn from_spec(vec: Vec<Word<N>>) -> WordList<N> {
        WordList(vec)
    }
}

impl<const N: usize> WordList<N> {
    /// Whether `word` is in the list.
    pub fn contains(&self, word: &Word<N>) -> (found: bool)
        ensures
            found == self@.contains(*word),
    {
        let mut i: usize = 0;
        while i < self.0.len()
            invariant
                i <= self@.len(),
                forall|j: int| 0 <= j < i ==> self@[j] != *word,
            decreases self@.len() - i,
        {
            if self.0[i] == *word {
                return true;
            }
            i += 1;
        }
        false
    }

    /// Keeps the words that would have earned `score` for `guess` had they
    /// been the secret, in their order, and drops the others.
    pub fn retain_viable_words(&mut self, guess: &Word<N>, score: &Score<N>)
        ensures
            final(self)@ == narrowed(old(self)@, *guess, score@),
            final(self)@.len() <= old(self)@.len(),
    {
        let ghost keep = |w: Word<N>| is_viable(w, *guess, score@);
        let mut kept: Vec<Word<N>> = Vec::new();
        let mut i: usize = 0;
        while i < self.0.len()
            invariant
                i <= self@.len(),
                self@ == old(self)@,
                keep == (|w: Word<N>| is_viable(w, *guess, score@)),
                kept@ == self@.take(i as int).filter(keep),
            decreases self@.len() - i,
        {
            let word = self.0[i];
            let earned = word.evaluate_guess(guess);
            proof {
                reveal(Seq::filter);
                assert(self@.take(i as int + 1).drop_last() =~= self@.take(i as int));
            }
            if same_score(&earned, score) {
                kept.push(word);
            }
            i += 1;
        }
        proof {
            assert(self@.take(i as int) =~= self@);
            lemma_narrowed_no_longer(self@, *guess, score@);
        }
        self.0 = kept;
    }
}

} // verus!
