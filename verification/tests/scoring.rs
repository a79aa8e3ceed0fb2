use std::convert::TryFrom;
use wordle_solve::word::LetterScore::{RightLetter, RightPlace, Wrong};
use wordle_solve::word::{is_win, same_score, LengthMismatch, Score, Word, WordList};

fn evaluate<const N: usize>(guess: &str, secret_word: &str) -> Score<N> {
    Word::try_from(secret_word)
        .unwrap()
        .evaluate_guess(&Word::try_from(guess).unwrap())
}

#[test]
fn test_evaluate() {
    assert_eq!(evaluate("xxx", "aaa"), [Wrong, Wrong, Wrong]);
    assert_eq!(evaluate("xxx", "xxx"), [RightPlace, RightPlace, RightPlace]);
    assert_eq!(
        evaluate("abc", "cab"),
        [RightLetter, RightLetter, RightLetter]
    );
    assert_eq!(
        evaluate("abc", "cba"),
        [RightLetter, RightPlace, RightLetter]
    );
    assert_eq!(evaluate("aab", "aaa"), [RightPlace, RightPlace, Wrong]);
    assert_eq!(evaluate("yyx", "xxx"), [Wrong, Wrong, RightPlace]);
    assert_eq!(evaluate("xxx", "yyx"), [Wrong, Wrong, RightPlace]);
    assert_eq!(
        evaluate("xyy", "yyx"),
        [RightLetter, RightPlace, RightLetter]
    );
}

fn word<const N: usize>(text: &str) -> Word<N> {
    Word::try_from(text).unwrap()
}

fn list<const N: usize>(texts: &[&str]) -> WordList<N> {
    WordList::from(texts.iter().map(|t| word::<N>(t)).collect::<Vec<_>>())
}

#[test]
fn word_of_wrong_length_is_refused() {
    assert_eq!(
        Word::<3>::try_from("abcd"),
        Err(LengthMismatch {
            expected: 3,
            found: 4
        })
    );
    assert_eq!(
        Word::<5>::try_from(""),
        Err(LengthMismatch {
            expected: 5,
            found: 0
        })
    );
    assert_eq!(Word::<3>::try_from("abc"), Ok(Word(['a', 'b', 'c'])));
}

#[test]
fn words_compare_letter_by_letter() {
    assert_eq!(word::<3>("abc"), word::<3>("abc"));
    assert_ne!(word::<3>("abc"), word::<3>("abd"));
    assert_ne!(word::<3>("abc"), word::<3>("bbc"));
}

#[test]
fn word_against_itself_is_all_right_place() {
    for text in ["favor", "arose", "eerie", "zzzzz"] {
        let w = word::<5>(text);
        let score = w.evaluate_guess(&w);
        assert_eq!(score, [RightPlace; 5]);
        assert!(is_win(&score));
    }
}

#[test]
fn disjoint_words_are_all_wrong_both_ways() {
    let a = word::<5>("favor");
    let b = word::<5>("blush");
    assert_eq!(a.evaluate_guess(&b), [Wrong; 5]);
    assert_eq!(b.evaluate_guess(&a), [Wrong; 5]);
    assert!(!is_win(&a.evaluate_guess(&b)));
}

#[test]
fn score_is_not_symmetric() {
    assert_eq!(evaluate::<3>("aab", "abb"), [RightPlace, Wrong, RightPlace]);
    assert_eq!(evaluate::<3>("abb", "aab"), [RightPlace, Wrong, RightPlace]);
    assert_eq!(evaluate::<3>("aab", "bcc"), [Wrong, Wrong, RightLetter]);
    assert_eq!(evaluate::<3>("bcc", "aab"), [RightLetter, Wrong, Wrong]);
}

#[test]
fn repeated_letter_claims_only_what_is_left() {
    assert_eq!(
        evaluate::<5>("eerie", "arose"),
        [Wrong, Wrong, RightLetter, Wrong, RightPlace]
    );
    assert_eq!(
        evaluate::<5>("llama", "lilac"),
        [RightPlace, RightLetter, RightLetter, Wrong, Wrong]
    );
    assert_eq!(
        evaluate::<5>("aaabb", "bbbaa"),
        [RightLetter, RightLetter, Wrong, RightLetter, RightLetter]
    );
}

#[test]
fn same_score_compares_outcomes() {
    assert!(same_score(&[Wrong, RightPlace], &[Wrong, RightPlace]));
    assert!(!same_score(&[Wrong, RightPlace], &[Wrong, RightLetter]));
    assert!(same_score::<0>(&[], &[]));
}

#[test]
fn narrowing_keeps_exactly_the_viable_words_in_order() {
    let mut words = list::<3>(&["abc", "abd", "xyz", "bbc", "abe"]);
    let guess = word::<3>("abd");
    let score = word::<3>("abc").evaluate_guess(&guess);
    assert_eq!(score, [RightPlace, RightPlace, Wrong]);
    words.retain_viable_words(&guess, &score);
    assert_eq!(words.0, vec![word::<3>("abc"), word::<3>("abe")]);
}

#[test]
fn narrowing_never_grows_and_keeps_the_secret() {
    let secret = word::<5>("favor");
    let mut words = list::<5>(&["arose", "favor", "flair", "fjord", "vapor", "blush", "rotor"]);
    let mut size = words.0.len();
    for text in ["arose", "blush", "vapor", "flair"] {
        let guess = word::<5>(text);
        let score = secret.evaluate_guess(&guess);
        words.retain_viable_words(&guess, &score);
        assert!(words.0.len() <= size);
        assert!(words.contains(&secret));
        size = words.0.len();
    }
    assert_eq!(words.0, vec![secret]);
}

#[test]
fn narrowing_twice_changes_nothing() {
    let mut words = list::<5>(&["arose", "favor", "flair", "fjord", "vapor", "blush", "rotor"]);
    let guess = word::<5>("arose");
    let score = word::<5>("favor").evaluate_guess(&guess);
    words.retain_viable_words(&guess, &score);
    let once = words.0.clone();
    words.retain_viable_words(&guess, &score);
    assert_eq!(words.0, once);
    assert_eq!(once, vec![word::<5>("favor"), word::<5>("vapor")]);
}

#[test]
fn narrowing_by_an_impossible_score_leaves_nothing() {
    let mut words = list::<3>(&["abc", "abd"]);
    words.retain_viable_words(&word::<3>("xyz"), &[RightPlace, RightPlace, RightPlace]);
    assert!(words.0.is_empty());
}

#[test]
fn word_list_membership_and_copy() {
    let words = list::<3>(&["abc", "abd"]);
    assert!(words.contains(&word::<3>("abd")));
    assert!(!words.contains(&word::<3>("abe")));
    let copy = words.clone();
    assert_eq!(copy.0, words.0);
    assert!(!list::<3>(&[]).contains(&word::<3>("abc")));
}

#[test]
fn word_as_text_spells_its_letters() {
    assert_eq!(word::<5>("favor").to_text(), "favor");
    assert_eq!(Word(['x', 'y']).to_text(), "xy");
    assert_eq!(Word::<0>([]).to_text(), "");
}
