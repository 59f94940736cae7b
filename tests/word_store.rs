use wordle_bot::persist::{decode_lines, encode_lines};
use wordle_bot::store::{DictionaryAction, WordStore};

fn strings(ws: &[&str]) -> Vec<String> {
    ws.iter().map(|w| w.to_string()).collect()
}

fn chars(s: &str) -> Vec<char> {
    s.chars().collect()
}

fn store() -> WordStore {
    WordStore::new(strings(&["crane", "slate"]), strings(&["crane", "slate", "a", "tree"]))
}

#[test]
fn add_then_contains_then_remove() {
    let mut s = store();
    assert!(!s.is_dictionary_word(&"zebra".to_string()));
    let added = s.edit_dictionary(&DictionaryAction::Add(strings(&["zebra"])));
    assert_eq!(added, strings(&["zebra"]));
    assert!(s.is_dictionary_word(&"zebra".to_string()));
    let removed = s.edit_dictionary(&DictionaryAction::Remove(strings(&["zebra"])));
    assert_eq!(removed, strings(&["zebra"]));
    assert!(!s.is_dictionary_word(&"zebra".to_string()));
}

#[test]
fn adding_present_word_reports_nothing() {
    let mut s = store();
    let _ = s.take_unsaved();
    let added = s.edit_dictionary(&DictionaryAction::Add(strings(&["crane"])));
    assert!(added.is_empty());
    assert!(s.take_unsaved().is_none());
}

#[test]
fn add_skips_wrong_length_and_repeats() {
    let mut s = store();
    let added = s.edit_dictionary(&DictionaryAction::Add(strings(&[
        "zebra", "cat", "toolong", "zebra", "tree", "mango",
    ])));
    assert_eq!(added, strings(&["zebra", "mango"]));
    assert!(!s.is_dictionary_word(&"cat".to_string()));
    assert_eq!(s.playable_len(), 4);
}

#[test]
fn add_word_only_in_one_list() {
    // "slate" is in both lists already; a word only in the dictionary is
    // reported, since it becomes playable.
    let mut s = WordStore::new(strings(&["crane"]), strings(&["crane", "slate"]));
    let added = s.edit_dictionary(&DictionaryAction::Add(strings(&["slate"])));
    assert_eq!(added, strings(&["slate"]));
    assert_eq!(s.playable_len(), 2);
}

#[test]
fn remove_reports_only_present_words() {
    let mut s = store();
    let removed =
        s.edit_dictionary(&DictionaryAction::Remove(strings(&["tree", "nope", "crane", "tree"])));
    assert_eq!(removed, strings(&["tree", "crane"]));
    assert!(!s.is_dictionary_word(&"crane".to_string()));
    assert_eq!(s.playable_len(), 1);
    assert_eq!(s.playable_word(0), "slate");
}

#[test]
fn new_keeps_every_line_once() {
    let s = WordStore::new(
        strings(&["crane", "crane", "cat", "toolong"]),
        strings(&["x", "x", "a b"]),
    );
    assert_eq!(s.playable_len(), 3);
    assert_eq!(s.playable_word(1), "cat");
    assert!(s.is_dictionary_word(&"x".to_string()));
    assert!(s.is_dictionary_word(&"a b".to_string()));
}

#[test]
fn load_crlf_file() {
    let s = WordStore::new(
        decode_lines(&chars("crane\r\nslate\r\n")),
        decode_lines(&chars("crane\r\nab\r\n")),
    );
    assert_eq!(s.playable_len(), 2);
    assert_eq!(s.playable_word(0), "crane");
    assert!(s.is_dictionary_word(&"ab".to_string()));
    assert!(!s.is_dictionary_word(&"ab\r".to_string()));
}

#[test]
fn decode_carriage_returns() {
    assert_eq!(decode_lines(&chars("ab\r\ncd\r\n")), strings(&["ab", "cd"]));
    assert_eq!(decode_lines(&chars("a\rb\n")), strings(&["a\rb"]));
    assert_eq!(decode_lines(&chars("ab\r\r\n")), strings(&["ab\r"]));
    assert_eq!(decode_lines(&chars("ab\r")), strings(&["ab\r"]));
    assert_eq!(decode_lines(&chars("\r\n\r")), strings(&["", "\r"]));
}

#[test]
fn add_skips_words_ending_in_carriage_return() {
    let mut s = store();
    let added = s.edit_dictionary(&DictionaryAction::Add(strings(&["abcd\r", "abcde"])));
    assert_eq!(added, strings(&["abcde"]));
}

#[test]
fn random_word_is_playable() {
    let s = store();
    for _ in 0..20 {
        let w = s.get_random_word();
        assert!(w == "crane" || w == "slate");
    }
}

#[test]
fn take_unsaved_only_after_change() {
    let mut s = store();
    assert!(s.take_unsaved().is_none());
    s.edit_dictionary(&DictionaryAction::Add(strings(&["zebra"])));
    let (p, d) = s.take_unsaved().unwrap();
    assert_eq!(p, "crane\nslate\nzebra\n");
    assert_eq!(d, "crane\nslate\na\ntree\nzebra\n");
    assert!(s.take_unsaved().is_none());
}

#[test]
fn encode_and_decode_lines() {
    assert_eq!(encode_lines(&strings(&["ab", "", "c"])), "ab\n\nc\n");
    assert_eq!(encode_lines(&vec![]), "");
    assert_eq!(decode_lines(&chars("ab\n\nc\n")), strings(&["ab", "", "c"]));
    assert_eq!(decode_lines(&chars("ab\ncd")), strings(&["ab", "cd"]));
    assert_eq!(decode_lines(&chars("")), Vec::<String>::new());
}

#[test]
fn save_and_reload_keeps_sets() {
    let mut s = store();
    s.edit_dictionary(&DictionaryAction::Add(strings(&["zebra", "mango"])));
    s.edit_dictionary(&DictionaryAction::Remove(strings(&["crane", "a"])));
    let (p, d) = s.take_unsaved().unwrap();
    let mut t = WordStore::new(decode_lines(&chars(&p)), decode_lines(&chars(&d)));
    let (p2, d2) = {
        t.edit_dictionary(&DictionaryAction::Add(strings(&["qqqqq"])));
        t.edit_dictionary(&DictionaryAction::Remove(strings(&["qqqqq"])));
        t.take_unsaved().unwrap()
    };
    let mut a: Vec<String> = decode_lines(&chars(&p2));
    let mut b: Vec<String> = decode_lines(&chars(&p));
    a.sort();
    b.sort();
    assert_eq!(a, b);
    let mut a: Vec<String> = decode_lines(&chars(&d2));
    let mut b: Vec<String> = decode_lines(&chars(&d));
    a.sort();
    b.sort();
    assert_eq!(a, b);
    assert_eq!(b, strings(&["mango", "slate", "tree", "zebra"]));
}

#[test]
fn mark_unsaved_requests_a_new_save() {
    let mut s = store();
    assert!(s.take_unsaved().is_none());
    s.mark_unsaved();
    let (p, _) = s.take_unsaved().unwrap();
    assert_eq!(p, "crane\nslate\n");
}
