use wordle_bot::dialogue::{Dialogue, GuessState, StartState};
use wordle_bot::store::WordStore;

fn strings(ws: &[&str]) -> Vec<String> {
    ws.iter().map(|w| w.to_string()).collect()
}

fn store(playable: &[&str], dictionary: &[&str]) -> WordStore {
    WordStore::new(strings(playable), strings(dictionary))
}

fn send(d: Dialogue, s: &mut WordStore, text: &str) -> (Dialogue, Option<String>) {
    d.react(s, text).expect("a playable word is there")
}

fn game(answer: &str) -> Dialogue {
    Dialogue::Guess(GuessState {
        answer: answer.to_string(),
        guesses: vec![],
        last_input: vec![],
    })
}

const GREEN: &str = "\u{1F7E9}";
const YELLOW: &str = "\u{1F7E8}";
const BLACK: &str = "\u{2B1B}";

#[test]
fn winning_in_one_try() {
    let mut s = store(&["ABCDE"], &["ABCDE"]);
    let (d, reply) = send(Dialogue::default(), &mut s, "/wordle");
    assert_eq!(reply.unwrap(), "Wordle game started - /guess any 5 letter word");
    match &d {
        Dialogue::Guess(g) => assert_eq!(g.answer, "ABCDE"),
        Dialogue::Start(_) => panic!("no game started"),
    }
    let (d, reply) = send(d, &mut s, "/guess ABCDE");
    assert!(matches!(d, Dialogue::Start(_)));
    assert_eq!(reply.unwrap(), format!("You won. 1/6\n{}", GREEN.repeat(5)));
}

#[test]
fn losing_after_six_tries() {
    let words = ["SLOTH", "PUDGY", "WHIMS", "BLOCK", "FJORD", "GHOST"];
    let mut dict = vec!["CRANE"];
    dict.extend_from_slice(&words);
    let mut s = store(&["CRANE"], &dict);
    let (mut d, _) = send(Dialogue::default(), &mut s, "/wordle");
    for (i, w) in words.iter().enumerate() {
        let (next, reply) = send(d, &mut s, &format!("/guess {w}"));
        let reply = reply.unwrap();
        if i < 5 {
            assert!(matches!(next, Dialogue::Guess(_)));
            assert!(reply.starts_with(&format!("{}/6\n", i + 1)));
        } else {
            assert!(matches!(next, Dialogue::Start(_)));
            assert!(reply.starts_with("You lost. 6/6. Cringe.\nAnswer was CRANE\n"));
            assert_eq!(reply.lines().count(), 3 + 5);
        }
        d = next;
    }
}

#[test]
fn progress_reply_shows_history() {
    let mut s = store(&["CRANE"], &["CRANE", "TRACE", "CRATE"]);
    let (d, r1) = game("CRANE").react(&mut s, "/guess TRACE").unwrap();
    let row1 = format!("{BLACK}{GREEN}{GREEN}{YELLOW}{GREEN}");
    assert_eq!(r1.unwrap(), format!("1/6\n{row1}"));
    let (d, r2) = d.react(&mut s, "/guess CRATE").unwrap();
    let row2 = format!("{GREEN}{GREEN}{GREEN}{BLACK}{GREEN}");
    assert_eq!(r2.unwrap(), format!("2/6\n{row1}\n{row2}"));
    match d {
        Dialogue::Guess(g) => {
            assert_eq!(g.guesses.len(), 2);
            assert_eq!(g.guesses[1], (row2, "CRATE".to_string()));
        }
        Dialogue::Start(_) => panic!("game ended"),
    }
}

#[test]
fn unknown_guess_keeps_history() {
    let mut s = store(&["CRANE"], &["CRANE"]);
    let (d, reply) = send(game("CRANE"), &mut s, "/guess ZZZZZ");
    assert_eq!(reply.unwrap(), "ZZZZZ is not in the dictionary. /addword?");
    match d {
        Dialogue::Guess(g) => {
            assert_eq!(g.answer, "CRANE");
            assert!(g.guesses.is_empty());
            assert_eq!(g.last_input, strings(&["/guess", "ZZZZZ"]));
        }
        Dialogue::Start(_) => panic!("game ended"),
    }
    assert!(!s.is_dictionary_word(&"ZZZZZ".to_string()));
}

#[test]
fn wrong_length_guess_is_refused() {
    let mut s = store(&["CRANE"], &["CRANE"]);
    let (d, reply) = send(game("CRANE"), &mut s, "/guess CRANES");
    assert_eq!(reply.unwrap(), "Guess was not 5 characters");
    assert!(matches!(d, Dialogue::Guess(ref g) if g.guesses.is_empty()));
}

#[test]
fn guess_with_wrong_arity_is_invalid() {
    let mut s = store(&["CRANE"], &["CRANE"]);
    let (d, reply) = send(game("CRANE"), &mut s, "/guess");
    assert_eq!(reply.unwrap(), "Invalid guess");
    let (d, reply) = send(d, &mut s, "/guess CRANE CRANE");
    assert_eq!(reply.unwrap(), "Invalid guess");
    match d {
        Dialogue::Guess(g) => {
            assert!(g.guesses.is_empty());
            assert!(g.last_input.is_empty());
        }
        Dialogue::Start(_) => panic!("game ended"),
    }
}

#[test]
fn addword_adds_previous_guess() {
    let mut s = store(&["CRANE"], &["CRANE"]);
    let (d, _) = send(game("CRANE"), &mut s, "/guess ZEBRA");
    let (d, reply) = send(d, &mut s, "/addword");
    assert_eq!(reply.unwrap(), "Added {\"ZEBRA\"}");
    assert!(s.is_dictionary_word(&"ZEBRA".to_string()));
    let (_, reply) = send(d, &mut s, "/addword ZEBRA MANGO KIWI");
    assert_eq!(reply.unwrap(), "Added {\"MANGO\"}");
}

#[test]
fn removeword_needs_a_word() {
    let mut s = store(&["CRANE", "SLATE"], &["CRANE", "SLATE"]);
    let (d, reply) = send(game("CRANE"), &mut s, "/removeword");
    assert_eq!(reply.unwrap(), "Usage: /removeword <WORD> [..WORD2]");
    let (d, reply) = send(d, &mut s, "/removeword SLATE NOPE");
    assert_eq!(reply.unwrap(), "Removed {\"SLATE\"}");
    assert!(matches!(d, Dialogue::Guess(_)));
    assert!(!s.is_dictionary_word(&"SLATE".to_string()));
}

#[test]
fn exit_reveals_answer() {
    for cmd in ["/exit", "/end", "/stop"] {
        let mut s = store(&["CRANE"], &["CRANE"]);
        let (d, reply) = send(game("CRANE"), &mut s, cmd);
        assert_eq!(reply.unwrap(), "Ending game. Word was CRANE");
        assert!(matches!(d, Dialogue::Start(_)));
    }
}

#[test]
fn other_text_is_ignored() {
    let mut s = store(&["CRANE"], &["CRANE"]);
    let (d, reply) = send(Dialogue::Start(StartState), &mut s, "hello /wordle");
    assert!(reply.is_none());
    assert!(matches!(d, Dialogue::Start(_)));
    let (d, reply) = send(game("CRANE"), &mut s, "   ");
    assert!(reply.is_none());
    let (_, reply) = send(d, &mut s, "/wordle");
    assert!(reply.is_none());
}

#[test]
fn words_split_at_any_white_space() {
    let mut s = store(&["CRANE"], &["CRANE"]);
    let (d, reply) = send(Dialogue::default(), &mut s, "  /wordle\t ");
    assert!(reply.is_some());
    let (d, reply) = d.react(&mut s, "\n/guess \t CRANE  ").unwrap();
    assert!(reply.unwrap().starts_with("You won. 1/6"));
    assert!(matches!(d, Dialogue::Start(_)));
}

#[test]
fn no_game_without_playable_words() {
    let mut s = store(&[], &["CRANE"]);
    assert!(Dialogue::default().react(&mut s, "/wordle").is_none());
    assert!(Dialogue::default().react(&mut s, "hi").is_some());
}

#[test]
fn step_uses_given_pick() {
    let mut s = store(&["CRANE", "SLATE"], &["CRANE", "SLATE"]);
    let (d, _) = Dialogue::default().step(&mut s, &strings(&["/wordle"]), 1);
    match d {
        Dialogue::Guess(g) => {
            assert_eq!(g.answer, "SLATE");
            assert_eq!(g.last_input, strings(&["/wordle"]));
        }
        Dialogue::Start(_) => panic!("no game started"),
    }
}

#[test]
fn addword_alias_and_quoting() {
    let mut s = store(&["CRANE"], &["CRANE"]);
    let (d, reply) = send(game("CRANE"), &mut s, "/addword@doomybot ZEBRA ab\"cd MANGO");
    assert_eq!(reply.unwrap(), "Added {\"ZEBRA\", \"ab\\\"cd\", \"MANGO\"}");
    let (_, reply) = send(d, &mut s, "/addword");
    assert_eq!(reply.unwrap(), "Added {}");
}

#[test]
fn shared_handling_defers_edits() {
    let s = store(&["CRANE"], &["CRANE", "SLATE"]);
    let d = match game("CRANE").react_shared(&s, "/addword ZEBRA") {
        Err(d) => d,
        Ok(_) => panic!("an edit was handled without the lists"),
    };
    let (d, reply) = d.react_shared(&s, "/guess SLATE").ok().unwrap().unwrap();
    assert!(reply.unwrap().starts_with("1/6\n"));
    assert!(matches!(d, Dialogue::Guess(_)));
    let (d, reply) = d.react_shared(&s, "/removeword").ok().unwrap().unwrap();
    assert_eq!(reply.unwrap(), "Usage: /removeword <WORD> [..WORD2]");
    assert!(d.react_shared(&s, "/removeword SLATE").is_err());
    let empty = store(&[], &["CRANE"]);
    assert!(matches!(Dialogue::default().react_shared(&empty, "/wordle"), Ok(None)));
    let (d, reply) = Dialogue::default().react_shared(&s, "/wordle").ok().unwrap().unwrap();
    assert!(reply.is_some());
    assert!(matches!(d, Dialogue::Guess(ref g) if g.answer == "CRANE"));
}

#[test]
fn answer_of_other_length() {
    let mut s = store(&["ABCD"], &["ABCDE", "ABCD"]);
    let (d, _) = send(Dialogue::default(), &mut s, "/wordle");
    let (d, reply) = send(d, &mut s, "/guess ABCDE");
    assert_eq!(reply.unwrap(), format!("1/6\n{}{BLACK}", GREEN.repeat(4)));
    assert!(matches!(d, Dialogue::Guess(_)));
}
