use wordle_bot::tile::{evaluate, is_win, to_emoji, Placement};

use Placement::{Correct, Incorrect, Missing};

#[test]
fn evaluate_speed_against_erase() {
    let r = evaluate("SPEED", "ERASE");
    assert_eq!(r, vec![Incorrect, Missing, Incorrect, Incorrect, Missing]);
}

#[test]
fn evaluate_exact_word_is_all_correct() {
    let r = evaluate("ABCDE", "ABCDE");
    assert_eq!(r, vec![Correct; 5]);
    assert!(is_win(&r));
}

#[test]
fn evaluate_consumes_free_copies() {
    // Two free E's in the answer: only the first two E's of the guess score.
    let r = evaluate("EERIE", "SPEED");
    assert_eq!(r, vec![Incorrect, Incorrect, Missing, Missing, Missing]);
}

#[test]
fn evaluate_exact_match_takes_the_letter() {
    let r = evaluate("EERIE", "CRANE");
    assert_eq!(r, vec![Missing, Missing, Incorrect, Missing, Correct]);
    let r = evaluate("BBBBB", "ABBEY");
    assert_eq!(r, vec![Missing, Correct, Correct, Missing, Missing]);
}

#[test]
fn evaluate_counts_correct_and_present() {
    let r = evaluate("LEVEL", "HELLO");
    let correct = r.iter().filter(|p| **p == Correct).count();
    assert_eq!(correct, 1);
    // HELLO has one E free after the match at position 1: none is left for
    // position 3; both L's of HELLO are free for the two L's of LEVEL.
    assert_eq!(r, vec![Incorrect, Correct, Missing, Missing, Incorrect]);
}

#[test]
fn evaluate_handles_non_ascii() {
    let r = evaluate("\u{e9}cole", "col\u{e9}e");
    assert_eq!(r, vec![Incorrect, Incorrect, Incorrect, Incorrect, Correct]);
}

#[test]
fn is_win_rejects_partial() {
    assert!(!is_win(&vec![Correct, Correct, Correct, Correct, Missing]));
    assert!(is_win(&vec![]));
}

#[test]
fn to_emoji_maps_each_placement() {
    let s = to_emoji(&vec![Correct, Incorrect, Missing]);
    assert_eq!(s, "\u{1F7E9}\u{1F7E8}\u{2B1B}");
    assert_eq!(to_emoji(&vec![]), "");
}
