//! The per-conversation dialogue: a state machine from the current state and
//! the words of an incoming message to the next state and the reply.

use vstd::prelude::*;
use crate::store::{
    added_words, playable_in, random_index, removed_words, DictionaryAction,
    StoreView, WordStore,
};
use crate::tile::{all_correct, evaluate, evaluation, glyphs, is_win, to_emoji, WORD_LEN};
use crate::words::{lemma_views_push, views};

verus! {

/// The number of guesses a game allows.
pub const MAX_TRIES: usize = 6;

/// No game is running.
pub struct StartState;

/// A game is running.
pub struct GuessState {
    /// The secret word.
    pub answer: String,
    /// Each guess so far: its row of glyphs and the word guessed.
    pub guesses: Vec<(String, String)>,
    /// The words of the last message handled.
    pub last_input: Vec<String>,
}

/// The state of one conversation.
pub enum Dialogue {
    Start(StartState),
    Guess(GuessState),
}

/// What a `Dialogue` holds, as plain sequences.
pub ghost enum DialogueView {
    Start,
    Guess {
        answer: Seq<char>,
        guesses: Seq<(Seq<char>, Seq<char>)>,
        last_input: Seq<Seq<char>>,
    },
}

pub open spec fn history_view(v: Seq<(String, String)>) -> Seq<(Seq<char>, Seq<char>)> {
    v.map_values(|g: (String, String)| (g.0@, g.1@))
}

pub open spec fn reply_view(r: Option<String>) -> Option<Seq<char>> {
    match r {
        Some(s) => Some(s@),
        None => None,
    }
}

impl GuessState {
    pub open spec fn view(&self) -> DialogueView {
        DialogueView::Guess {
            answer: self.answer@,
            guesses: history_view(self.guesses@),
            last_input: views(self.last_input@),
        }
    }

    /// Fewer than six guesses were made.
    pub open spec fn wf(&self) -> bool {
        self.guesses@.len() < MAX_TRIES
    }
}

impl Dialogue {
    pub open spec fn view(&self) -> DialogueView {
        match self {
            Dialogue::Start(_) => DialogueView::Start,
            Dialogue::Guess(g) => g.view(),
        }
    }

    pub open spec fn wf(&self) -> bool {
        match self {
            Dialogue::Start(_) => true,
            Dialogue::Guess(g) => g.wf(),
        }
    }
}

impl Default for Dialogue {
    fn default() -> (r: Dialogue)
        ensures
            r is Start,
    {
        Dialogue::Start(StartState)
    }
}

/// `ws` joined with `sep` between neighbours.
pub open spec fn join(ws: Seq<Seq<char>>, sep: Seq<char>) -> Seq<char>
    decreases ws.len(),
{
    if ws.len() == 0 {
        Seq::empty()
    } else if ws.len() == 1 {
        ws[0]
    } else {
        join(ws.drop_last(), sep) + sep + ws.last()
    }
}

/// What `{:?}` shows for a string: the string quoted, with its special
/// characters escaped.
pub uninterp spec fn debug_text(s: Seq<char>) -> Seq<char>;

/// Relies on `<str as Debug>::fmt`: the quoted, escaped form of a string,
/// which depends on its characters alone.
#[verifier::external_body]
fn debug_quoted(s: &str) -> (r: String)
    ensures
        r@ == debug_text(s@),
{
    format!("{:?}", s)
}

/// The quoted forms of a list of words.
pub open spec fn quoted(ws: Seq<Seq<char>>) -> Seq<Seq<char>> {
    ws.map_values(|w: Seq<char>| debug_text(w))
}

/// A list of words as a reply shows it: `{"a", "b"}`.
pub open spec fn list_text(ws: Seq<Seq<char>>) -> Seq<char> {
    "{"@ + join(quoted(ws), ", "@) + "}"@
}

/// The commands that add words.
pub open spec fn is_addword(c: Seq<char>) -> bool {
    c == "/addword"@ || c == "/addword@doomybot"@
}

/// The rows of glyphs of the guesses so far, one per line.
pub open spec fn history_text(gs: Seq<(Seq<char>, Seq<char>)>) -> Seq<char> {
    join(gs.map_values(|g: (Seq<char>, Seq<char>)| g.0), "\n"@)
}

/// A number of tries, from one to six, as one digit.
pub open spec fn tries_text(n: nat) -> Seq<char> {
    if n == 1 {
        "1"@
    } else if n == 2 {
        "2"@
    } else if n == 3 {
        "3"@
    } else if n == 4 {
        "4"@
    } else if n == 5 {
        "5"@
    } else {
        "6"@
    }
}

/// The command of a message: its first word, if any.
pub open spec fn command(tokens: Seq<Seq<char>>) -> Seq<char> {
    if tokens.len() > 0 {
        tokens[0]
    } else {
        Seq::empty()
    }
}

pub open spec fn is_exit(c: Seq<char>) -> bool {
    c == "/exit"@ || c == "/end"@ || c == "/stop"@
}

/// Whether handling `tokens` in `d` starts a game and so picks an answer.
pub open spec fn needs_pick(d: DialogueView, tokens: Seq<Seq<char>>) -> bool {
    d is Start && command(tokens) == "/wordle"@
}

/// The words that `/addword` adds: those after the command or, when it has
/// none and the message before was a command with one word, that word.
pub open spec fn addword_args(last_input: Seq<Seq<char>>, tokens: Seq<Seq<char>>) -> Seq<
    Seq<char>,
> {
    if tokens.len() == 1 && last_input.len() == 2 {
        seq![last_input[1]]
    } else {
        tokens.drop_first()
    }
}

/// The change to the word lists that handling `tokens` in `d` makes: `true`
/// with the words for an addition, `false` for a removal.
pub open spec fn edit_of(d: DialogueView, tokens: Seq<Seq<char>>) -> Option<
    (bool, Seq<Seq<char>>),
> {
    match d {
        DialogueView::Start => None,
        DialogueView::Guess { answer, guesses, last_input } => {
            let c = command(tokens);
            if is_addword(c) {
                Some((true, addword_args(last_input, tokens)))
            } else if c == "/removeword"@ && tokens.len() >= 2 {
                Some((false, tokens.drop_first()))
            } else {
                None
            }
        },
    }
}

/// How the word lists `s2` after handling `tokens` in `d` relate to the lists
/// `s` before.
pub open spec fn store_after(
    s: StoreView,
    s2: StoreView,
    d: DialogueView,
    tokens: Seq<Seq<char>>,
) -> bool {
    match edit_of(d, tokens) {
        None => s2 == s,
        Some((add, ws)) => if add {
            &&& s2.playable.to_set() == s.playable.to_set() + playable_in(ws)
            &&& s2.dictionary.to_set() == s.dictionary.to_set() + playable_in(ws)
            &&& s2.dirty == (s.dirty || added_words(
                ws,
                s.playable.to_set(),
                s.dictionary.to_set(),
            ).len() > 0)
        } else {
            &&& s2.playable.to_set() == s.playable.to_set() - ws.to_set()
            &&& s2.dictionary.to_set() == s.dictionary.to_set() - ws.to_set()
            &&& s2.dirty == (s.dirty || removed_words(
                ws,
                s.playable.to_set(),
                s.dictionary.to_set(),
            ).len() > 0)
        },
    }
}

/// The outcome of the guess `attempt` in a running game.
pub open spec fn guess_spec(
    answer: Seq<char>,
    guesses: Seq<(Seq<char>, Seq<char>)>,
    tokens: Seq<Seq<char>>,
    s: StoreView,
    attempt: Seq<char>,
) -> (DialogueView, Option<Seq<char>>) {
    let same = DialogueView::Guess { answer, guesses, last_input: tokens };
    if attempt.len() != WORD_LEN {
        (same, Some("Guess was not 5 characters"@))
    } else if !s.dictionary.contains(attempt) {
        (same, Some(attempt + " is not in the dictionary. /addword?"@))
    } else {
        let ps = evaluation(attempt, answer);
        let gs = guesses.push((glyphs(ps), attempt));
        let h = history_text(gs);
        if all_correct(ps) {
            (DialogueView::Start, Some("You won. "@ + tries_text(gs.len()) + "/6\n"@ + h))
        } else if gs.len() < MAX_TRIES {
            (
                DialogueView::Guess { answer, guesses: gs, last_input: tokens },
                Some(tries_text(gs.len()) + "/6\n"@ + h),
            )
        } else {
            (
                DialogueView::Start,
                Some("You lost. 6/6. Cringe.\nAnswer was "@ + answer + "\n"@ + h),
            )
        }
    }
}

/// The next state and the reply when `tokens` arrive in `d`, with the word
/// lists `s` as they were, where `picked` is the answer a new game gets.
pub open spec fn step_spec(
    d: DialogueView,
    s: StoreView,
    tokens: Seq<Seq<char>>,
    picked: Seq<char>,
) -> (DialogueView, Option<Seq<char>>) {
    let c = command(tokens);
    match d {
        DialogueView::Start => if c == "/wordle"@ {
            (
                DialogueView::Guess { answer: picked, guesses: Seq::empty(), last_input: tokens },
                Some("Wordle game started - /guess any 5 letter word"@),
            )
        } else {
            (d, None)
        },
        DialogueView::Guess { answer, guesses, last_input } => {
            let kept = DialogueView::Guess { answer, guesses, last_input: tokens };
            if is_addword(c) {
                let ws = addword_args(last_input, tokens);
                (
                    kept,
                    Some(
                        "Added "@ + list_text(
                            added_words(ws, s.playable.to_set(), s.dictionary.to_set()),
                        ),
                    ),
                )
            } else if is_exit(c) {
                (DialogueView::Start, Some("Ending game. Word was "@ + answer))
            } else if c == "/removeword"@ {
                if tokens.len() < 2 {
                    (kept, Some("Usage: /removeword <WORD> [..WORD2]"@))
                } else {
                    (
                        kept,
                        Some(
                            "Removed "@ + list_text(
                                removed_words(
                                    tokens.drop_first(),
                                    s.playable.to_set(),
                                    s.dictionary.to_set(),
                                ),
                            ),
                        ),
                    )
                }
            } else if c == "/guess"@ {
                if tokens.len() == 2 {
                    guess_spec(answer, guesses, tokens, s, tokens[1])
                } else {
                    (d, Some("Invalid guess"@))
                }
            } else {
                (d, None)
            }
        },
    }
}

/// Whether the word `tok` is the command `lit`.
fn is_command(tok: &String, lit: &str) -> (r: bool)
    ensures
        r == (tok@ == lit@),
{
    let l = String::from_str(lit);
    *tok == l
}

/// A copy of the words of `v` from position `from` on.
fn copy_words(v: &Vec<String>, from: usize) -> (r: Vec<String>)
    requires
        from <= v@.len(),
    ensures
        views(r@) == views(v@).subrange(from as int, v@.len() as int),
{
    let mut r: Vec<String> = Vec::new();
    let mut i: usize = from;
    while i < v.len()
        invariant
            from <= i <= v@.len(),
            views(r@) == views(v@).subrange(from as int, i as int),
        decreases v@.len() - i,
    {
        let c = v[i].clone();
        proof {
            lemma_views_push(r@, c);
            assert(views(v@).subrange(from as int, i as int + 1) =~= views(v@).subrange(
                from as int,
                i as int,
            ).push(c@));
        }
        r.push(c);
        i = i + 1;
    }
    r
}

/// Appends the words of `ws` to `r`, with `sep` between neighbours.
fn append_joined(r: &mut String, ws: &Vec<String>, sep: &str)
    ensures
        final(r)@ == old(r)@ + join(views(ws@), sep@),
{
    let mut i: usize = 0;
    while i < ws.len()
        invariant
            i <= ws@.len(),
            r@ == old(r)@ + join(views(ws@).subrange(0, i as int), sep@),
        decreases ws@.len() - i,
    {
        let ghost before = r@;
        let ghost sub = views(ws@).subrange(0, i as int + 1);
        proof {
            assert(sub.drop_last() =~= views(ws@).subrange(0, i as int));
            assert(sub.last() == ws@[i as int]@);
        }
        if i > 0 {
            r.append(sep);
        }
        r.append(ws[i].as_str());
        proof {
            if i == 0 {
                assert(join(views(ws@).subrange(0, 0), sep@) =~= Seq::<char>::empty());
                assert(before =~= old(r)@);
            }
            assert(r@ =~= old(r)@ + join(sub, sep@));
        }
        i = i + 1;
    }
    assert(views(ws@).subrange(0, ws@.len() as int) =~= views(ws@));
}

/// `prefix` followed by the words of `ws` as a list.
fn list_message(prefix: &str, ws: &Vec<String>) -> (r: String)
    ensures
        r@ == prefix@ + list_text(views(ws@)),
{
    let mut q: Vec<String> = Vec::new();
    let mut i: usize = 0;
    while i < ws.len()
        invariant
            i <= ws@.len(),
            views(q@) == quoted(views(ws@).subrange(0, i as int)),
        decreases ws@.len() - i,
    {
        let d = debug_quoted(ws[i].as_str());
        proof {
            lemma_views_push(q@, d);
            assert(quoted(views(ws@).subrange(0, i as int + 1)) =~= quoted(
                views(ws@).subrange(0, i as int),
            ).push(d@));
        }
        q.push(d);
        i = i + 1;
    }
    assert(views(ws@).subrange(0, ws@.len() as int) =~= views(ws@));
    let mut r = String::from_str(prefix);
    r.append("{");
    append_joined(&mut r, &q, ", ");
    r.append("}");
    assert(r@ =~= prefix@ + list_text(views(ws@)));
    r
}

/// The rows of glyphs of `gs`, one per line.
fn history_string(gs: &Vec<(String, String)>) -> (r: String)
    ensures
        r@ == history_text(history_view(gs@)),
{
    let ghost rows = history_view(gs@).map_values(|g: (Seq<char>, Seq<char>)| g.0);
    let mut r = String::new();
    let mut i: usize = 0;
    while i < gs.len()
        invariant
            i <= gs@.len(),
            rows == history_view(gs@).map_values(|g: (Seq<char>, Seq<char>)| g.0),
            r@ == join(rows.subrange(0, i as int), "\n"@),
        decreases gs@.len() - i,
    {
        let ghost before = r@;
        let ghost sub = rows.subrange(0, i as int + 1);
        proof {
            assert(sub.drop_last() =~= rows.subrange(0, i as int));
            assert(sub.last() == gs@[i as int].0@);
        }
        if i > 0 {
            r.append("\n");
        }
        r.append(gs[i].0.as_str());
        proof {
            if i == 0 {
                assert(join(rows.subrange(0, 0), "\n"@) =~= Seq::<char>::empty());
            }
            assert(r@ =~= join(sub, "\n"@));
        }
        i = i + 1;
    }
    assert(rows.subrange(0, gs@.len() as int) =~= rows);
    r
}

/// A number of tries as one digit.
fn tries_str(n: usize) -> (r: &'static str)
    requires
        1 <= n <= MAX_TRIES,
    ensures
        r@ == tries_text(n as nat),
{
    if n == 1 {
        "1"
    } else if n == 2 {
        "2"
    } else if n == 3 {
        "3"
    } else if n == 4 {
        "4"
    } else if n == 5 {
        "5"
    } else {
        "6"
    }
}

/// Handles a message in `Start`: `/wordle` starts a game with the playable
/// word at position `pick`; anything else is ignored.
fn start_state(tokens: &Vec<String>, store: &WordStore, pick: usize) -> (r: (
    Dialogue,
    Option<String>,
))
    requires
        store@.wf(),
        needs_pick(DialogueView::Start, views(tokens@)) ==> pick < store@.playable.len(),
    ensures
        r.0.wf(),
        (r.0.view(), reply_view(r.1)) == step_spec(
            DialogueView::Start,
            store@,
            views(tokens@),
            store@.playable[pick as int],
        ),
{
    if tokens.len() > 0 && is_command(&tokens[0], "/wordle") {
        let answer = store.playable_word(pick);
        let last_input = copy_words(tokens, 0);
        proof {
            assert(views(tokens@).subrange(0, tokens@.len() as int) =~= views(tokens@));
            assert(history_view(Seq::<(String, String)>::empty()) =~= Seq::empty());
        }
        let g = GuessState { answer, guesses: Vec::new(), last_input };
        let reply = String::from_str("Wordle game started - /guess any 5 letter word");
        (Dialogue::Guess(g), Some(reply))
    } else {
        proof {
            reveal_strlit("/wordle");
            if tokens@.len() > 0 {
                assert(views(tokens@)[0] == tokens@[0]@);
            } else {
                assert("/wordle"@.len() == 7);
            }
        }
        (Dialogue::Start(StartState), None)
    }
}

/// Scores the guess `tokens[1]` in a running game.
fn guess_word(g: GuessState, store: &WordStore, tokens: &Vec<String>) -> (r: (
    Dialogue,
    Option<String>,
))
    requires
        g.wf(),
        store@.wf(),
        tokens@.len() == 2,
    ensures
        r.0.wf(),
        (r.0.view(), reply_view(r.1)) == guess_spec(
            g.answer@,
            history_view(g.guesses@),
            views(tokens@),
            store@,
            views(tokens@)[1],
        ),
{
    let attempt = &tokens[1];
    assert(views(tokens@)[1] == attempt@);
    let last_input = copy_words(tokens, 0);
    assert(views(tokens@).subrange(0, 2) =~= views(tokens@));
    if attempt.unicode_len() != WORD_LEN {
        let st = GuessState { answer: g.answer, guesses: g.guesses, last_input };
        return (Dialogue::Guess(st), Some(String::from_str("Guess was not 5 characters")));
    }
    if !store.is_dictionary_word(attempt) {
        let mut m = attempt.clone();
        m.append(" is not in the dictionary. /addword?");
        let st = GuessState { answer: g.answer, guesses: g.guesses, last_input };
        return (Dialogue::Guess(st), Some(m));
    }
    let ps = evaluate(attempt.as_str(), g.answer.as_str());
    let row = to_emoji(&ps);
    let mut guesses = g.guesses;
    let ghost before = guesses@;
    guesses.push((row, attempt.clone()));
    assert(history_view(guesses@) =~= history_view(before).push((glyphs(ps@), attempt@)));
    let h = history_string(&guesses);
    let tries = guesses.len();
    if is_win(&ps) {
        let mut m = String::from_str("You won. ");
        m.append(tries_str(tries));
        m.append("/6\n");
        m.append(h.as_str());
        (Dialogue::Start(StartState), Some(m))
    } else if tries < MAX_TRIES {
        let mut m = String::from_str(tries_str(tries));
        m.append("/6\n");
        m.append(h.as_str());
        (Dialogue::Guess(GuessState { answer: g.answer, guesses, last_input }), Some(m))
    } else {
        let mut m = String::from_str("You lost. 6/6. Cringe.\nAnswer was ");
        m.append(g.answer.as_str());
        m.append("\n");
        m.append(h.as_str());
        (Dialogue::Start(StartState), Some(m))
    }
}

/// Reveals the command literals, so that they are told apart.
proof fn lemma_commands_distinct()
    ensures
        "/addword"@.len() == 8,
        "/addword@doomybot"@.len() == 17,
        "/exit"@.len() == 5,
        "/end"@.len() == 4,
        "/stop"@.len() == 5,
        "/removeword"@.len() == 11,
        "/guess"@.len() == 6,
{
    reveal_strlit("/addword");
    reveal_strlit("/addword@doomybot");
    reveal_strlit("/exit");
    reveal_strlit("/end");
    reveal_strlit("/stop");
    reveal_strlit("/removeword");
    reveal_strlit("/guess");
}

/// Whether `tokens`, arriving in the running game `g`, edit the word lists.
fn edits_in_game(g: &GuessState, tokens: &Vec<String>) -> (r: bool)
    ensures
        r == edit_of(g.view(), views(tokens@)) is Some,
{
    proof {
        lemma_commands_distinct();
    }
    if tokens.len() == 0 {
        return false;
    }
    assert(views(tokens@)[0] == tokens@[0]@);
    let c = &tokens[0];
    is_command(c, "/addword") || is_command(c, "/addword@doomybot") || (is_command(
        c,
        "/removeword",
    ) && tokens.len() >= 2)
}

/// Handles a message in a running game that does not edit the word lists.
fn guess_reads(g: GuessState, store: &WordStore, tokens: &Vec<String>) -> (r: (
    Dialogue,
    Option<String>,
))
    requires
        g.wf(),
        store@.wf(),
        edit_of(g.view(), views(tokens@)) is None,
    ensures
        r.0.wf(),
        (r.0.view(), reply_view(r.1)) == step_spec(g.view(), store@, views(tokens@), Seq::empty()),
{
    proof {
        lemma_commands_distinct();
    }
    if tokens.len() == 0 {
        return (Dialogue::Guess(g), None);
    }
    assert(views(tokens@)[0] == tokens@[0]@);
    let c = &tokens[0];
    if is_command(c, "/exit") || is_command(c, "/end") || is_command(c, "/stop") {
        let mut m = String::from_str("Ending game. Word was ");
        m.append(g.answer.as_str());
        (Dialogue::Start(StartState), Some(m))
    } else if is_command(c, "/removeword") {
        let last_input = copy_words(tokens, 0);
        assert(views(tokens@).subrange(0, tokens@.len() as int) =~= views(tokens@));
        let st = GuessState { answer: g.answer, guesses: g.guesses, last_input };
        (Dialogue::Guess(st), Some(String::from_str("Usage: /removeword <WORD> [..WORD2]")))
    } else if is_command(c, "/guess") {
        if tokens.len() == 2 {
            guess_word(g, store, tokens)
        } else {
            (Dialogue::Guess(g), Some(String::from_str("Invalid guess")))
        }
    } else {
        (Dialogue::Guess(g), None)
    }
}

/// Handles a message in a running game.
fn guess_state(g: GuessState, store: &mut WordStore, tokens: &Vec<String>) -> (r: (
    Dialogue,
    Option<String>,
))
    requires
        g.wf(),
        old(store)@.wf(),
    ensures
        r.0.wf(),
        final(store)@.wf(),
        (r.0.view(), reply_view(r.1)) == step_spec(
            g.view(),
            old(store)@,
            views(tokens@),
            Seq::empty(),
        ),
        store_after(old(store)@, final(store)@, g.view(), views(tokens@)),
{
    if !edits_in_game(&g, tokens) {
        return guess_reads(g, store, tokens);
    }
    proof {
        lemma_commands_distinct();
    }
    assert(views(tokens@)[0] == tokens@[0]@);
    assert(views(tokens@).drop_first() =~= views(tokens@).subrange(1, tokens@.len() as int));
    let last_input = copy_words(tokens, 0);
    assert(views(tokens@).subrange(0, tokens@.len() as int) =~= views(tokens@));
    let c = &tokens[0];
    if is_command(c, "/addword") || is_command(c, "/addword@doomybot") {
        let ws = if tokens.len() == 1 && g.last_input.len() == 2 {
            let mut v: Vec<String> = Vec::new();
            let w = g.last_input[1].clone();
            proof {
                lemma_views_push(v@, w);
                assert(views(v@).push(w@) =~= seq![views(g.last_input@)[1]]);
            }
            v.push(w);
            v
        } else {
            copy_words(tokens, 1)
        };
        assert(views(ws@) == addword_args(views(g.last_input@), views(tokens@)));
        let added = store.edit_dictionary(&DictionaryAction::Add(ws));
        let m = list_message("Added ", &added);
        let st = GuessState { answer: g.answer, guesses: g.guesses, last_input };
        (Dialogue::Guess(st), Some(m))
    } else {
        let ws = copy_words(tokens, 1);
        let removed = store.edit_dictionary(&DictionaryAction::Remove(ws));
        let m = list_message("Removed ", &removed);
        let st = GuessState { answer: g.answer, guesses: g.guesses, last_input };
        (Dialogue::Guess(st), Some(m))
    }
}

impl Dialogue {
    /// Handles the words `tokens` of one message: returns the next state and
    /// the reply, if any, and applies the word-list edits the message asks
    /// for. A game that starts here gets the playable word at position `pick`.
    pub fn step(self, store: &mut WordStore, tokens: &Vec<String>, pick: usize) -> (r: (
        Dialogue,
        Option<String>,
    ))
        requires
            self.wf(),
            old(store)@.wf(),
            needs_pick(self.view(), views(tokens@)) ==> pick < old(store)@.playable.len(),
        ensures
            r.0.wf(),
            final(store)@.wf(),
            (r.0.view(), reply_view(r.1)) == step_spec(
                self.view(),
                old(store)@,
                views(tokens@),
                old(store)@.playable[pick as int],
            ),
            store_after(old(store)@, final(store)@, self.view(), views(tokens@)),
    {
        match self {
            Dialogue::Start(_) => start_state(tokens, store, pick),
            Dialogue::Guess(g) => guess_state(g, store, tokens),
        }
    }
}

/// The words of a message, as `split_whitespace` gives them.
pub uninterp spec fn message_words(text: Seq<char>) -> Seq<Seq<char>>;

/// Relies on `str::split_whitespace`: the words of a message, split at runs
/// of white space; the result depends on the text alone.
#[verifier::external_body]
fn split_words(text: &str) -> (r: Vec<String>)
    ensures
        views(r@) == message_words(text@),
{
    text.split_whitespace().map(String::from).collect()
}

/// Whether `out` is what `step_spec` gives for `tokens` in `d` with the lists
/// `s`, for some answer that a new game could have drawn.
pub open spec fn answered_by(
    d: DialogueView,
    s: StoreView,
    tokens: Seq<Seq<char>>,
    out: (DialogueView, Option<Seq<char>>),
) -> bool {
    exists|w: Seq<char>|
        (needs_pick(d, tokens) ==> s.playable.contains(w)) && out == #[trigger] step_spec(
            d,
            s,
            tokens,
            w,
        )
}

impl Dialogue {
    /// Handles one message: splits it into words and, when it starts a game,
    /// draws the answer at random from the playable words. Returns `None`,
    /// changing nothing, exactly when a game should start and no word is
    /// playable.
    pub fn react(self, store: &mut WordStore, text: &str) -> (r: Option<(Dialogue, Option<String>)>)
        requires
            self.wf(),
            old(store)@.wf(),
        ensures
            final(store)@.wf(),
            match r {
                None => {
                    &&& needs_pick(self.view(), message_words(text@))
                    &&& old(store)@.playable.len() == 0
                    &&& final(store)@ == old(store)@
                },
                Some((d, reply)) => {
                    &&& d.wf()
                    &&& !(needs_pick(self.view(), message_words(text@)) && old(store)@.playable.len()
                        == 0)
                    &&& store_after(old(store)@, final(store)@, self.view(), message_words(text@))
                    &&& answered_by(
                        self.view(),
                        old(store)@,
                        message_words(text@),
                        (d.view(), reply_view(reply)),
                    )
                },
            },
    {
        let ghost s0 = store@;
        let ghost d0 = self.view();
        let tokens = split_words(text);
        let ghost toks = message_words(text@);
        let starts = matches!(self, Dialogue::Start(_)) && tokens.len() > 0 && is_command(
            &tokens[0],
            "/wordle",
        );
        proof {
            reveal_strlit("/wordle");
            if tokens@.len() > 0 {
                assert(views(tokens@)[0] == tokens@[0]@);
            } else {
                assert("/wordle"@.len() == 7);
            }
        }
        assert(starts == needs_pick(d0, toks));
        let pick: usize = if starts {
            if store.playable_len() == 0 {
                return None;
            }
            random_index(store.playable_len())
        } else {
            0
        };
        let ghost w = s0.playable[pick as int];
        assert(starts ==> s0.playable.contains(w)) by {
            if starts {
                assert(s0.playable[pick as int] == w);
            }
        }
        let r = self.step(store, &tokens, pick);
        let ghost out = (r.0.view(), reply_view(r.1));
        assert(out == step_spec(d0, s0, toks, w));
        assert(answered_by(d0, s0, toks, out)) by {
            assert((needs_pick(d0, toks) ==> s0.playable.contains(w)) && out == step_spec(
                d0,
                s0,
                toks,
                w,
            ));
        }
        Some(r)
    }
}

impl Dialogue {
    /// Handles one message with the word lists shared for reading only. When
    /// the message edits the lists, hands the dialogue back as it was, as
    /// `Err`, for `react`; otherwise behaves as `react`.
    pub fn react_shared(self, store: &WordStore, text: &str) -> (r: Result<
        Option<(Dialogue, Option<String>)>,
        Dialogue,
    >)
        requires
            self.wf(),
            store@.wf(),
        ensures
            match r {
                Err(d) => {
                    &&& edit_of(self.view(), message_words(text@)) is Some
                    &&& d.view() == self.view()
                    &&& d.wf()
                },
                Ok(None) => {
                    &&& edit_of(self.view(), message_words(text@)) is None
                    &&& needs_pick(self.view(), message_words(text@))
                    &&& store@.playable.len() == 0
                },
                Ok(Some((d, reply))) => {
                    &&& edit_of(self.view(), message_words(text@)) is None
                    &&& d.wf()
                    &&& !(needs_pick(self.view(), message_words(text@)) && store@.playable.len()
                        == 0)
                    &&& answered_by(
                        self.view(),
                        store@,
                        message_words(text@),
                        (d.view(), reply_view(reply)),
                    )
                },
            },
    {
        let ghost d0 = self.view();
        let tokens = split_words(text);
        let ghost toks = message_words(text@);
        match self {
            Dialogue::Start(_) => {
                let starts = tokens.len() > 0 && is_command(&tokens[0], "/wordle");
                proof {
                    reveal_strlit("/wordle");
                    if tokens@.len() > 0 {
                        assert(views(tokens@)[0] == tokens@[0]@);
                    } else {
                        assert("/wordle"@.len() == 7);
                    }
                }
                assert(starts == needs_pick(d0, toks));
                let pick: usize = if starts {
                    if store.playable_len() == 0 {
                        return Ok(None);
                    }
                    random_index(store.playable_len())
                } else {
                    0
                };
                let ghost w = store@.playable[pick as int];
                let r = start_state(&tokens, store, pick);
                let ghost out = (r.0.view(), reply_view(r.1));
                assert(answered_by(d0, store@, toks, out)) by {
                    if starts {
                        assert(store@.playable[pick as int] == w);
                    }
                    assert((needs_pick(d0, toks) ==> store@.playable.contains(w)) && out
                        == step_spec(d0, store@, toks, w));
                }
                Ok(Some(r))
            },
            Dialogue::Guess(g) => {
                if edits_in_game(&g, &tokens) {
                    return Err(Dialogue::Guess(g));
                }
                let r = guess_reads(g, store, &tokens);
                let ghost out = (r.0.view(), reply_view(r.1));
                assert(answered_by(d0, store@, toks, out)) by {
                    assert((needs_pick(d0, toks) ==> store@.playable.contains(Seq::empty()))
                        && out == step_spec(d0, store@, toks, Seq::empty()));
                }
                Ok(Some(r))
            },
        }
    }
}

/// A guess of the right length that the dictionary does not hold leaves the
/// game as it was: the same answer and guesses, no edit of the word lists;
/// only the record of the last message changes.
pub proof fn lemma_unknown_guess_keeps_game(
    d: DialogueView,
    s: StoreView,
    s2: StoreView,
    tokens: Seq<Seq<char>>,
    picked: Seq<char>,
)
    requires
        d is Guess,
        tokens.len() == 2,
        tokens[0] == "/guess"@,
        tokens[1].len() == WORD_LEN,
        !s.dictionary.contains(tokens[1]),
    ensures
        step_spec(d, s, tokens, picked).0 == (DialogueView::Guess {
            answer: d->answer,
            guesses: d->guesses,
            last_input: tokens,
        }),
        store_after(s, s2, d, tokens) == (s2 == s),
{
    lemma_commands_distinct();
}

/// `/guess` with no word or with more than one changes nothing and replies
/// "Invalid guess".
pub proof fn lemma_guess_arity(
    d: DialogueView,
    s: StoreView,
    s2: StoreView,
    tokens: Seq<Seq<char>>,
    picked: Seq<char>,
)
    requires
        d is Guess,
        tokens.len() >= 1,
        tokens[0] == "/guess"@,
        tokens.len() != 2,
    ensures
        step_spec(d, s, tokens, picked) == (d, Some("Invalid guess"@)),
        store_after(s, s2, d, tokens) == (s2 == s),
{
    lemma_commands_distinct();
}

/// A guess of the answer itself, when the dictionary holds it, wins: the game
/// ends after that try with the "You won" reply.
pub proof fn lemma_guess_answer_wins(
    answer: Seq<char>,
    guesses: Seq<(Seq<char>, Seq<char>)>,
    last_input: Seq<Seq<char>>,
    s: StoreView,
    tokens: Seq<Seq<char>>,
    picked: Seq<char>,
)
    requires
        tokens.len() == 2,
        tokens[0] == "/guess"@,
        tokens[1] == answer,
        answer.len() == WORD_LEN,
        s.dictionary.contains(answer),
    ensures
        ({
            let gs = guesses.push((glyphs(evaluation(answer, answer)), answer));
            step_spec(DialogueView::Guess { answer, guesses, last_input }, s, tokens, picked) == (
                DialogueView::Start,
                Some("You won. "@ + tries_text(gs.len()) + "/6\n"@ + history_text(gs)),
            )
        }),
{
    lemma_commands_distinct();
    assert(all_correct(evaluation(answer, answer)));
}

/// A wrong guess that the dictionary holds adds its row to the history. The
/// game goes on while fewer than six guesses were made; the sixth ends it
/// with the "You lost" reply, which reveals the answer.
pub proof fn lemma_wrong_guess(
    answer: Seq<char>,
    guesses: Seq<(Seq<char>, Seq<char>)>,
    last_input: Seq<Seq<char>>,
    s: StoreView,
    tokens: Seq<Seq<char>>,
    picked: Seq<char>,
)
    requires
        tokens.len() == 2,
        tokens[0] == "/guess"@,
        tokens[1].len() == WORD_LEN,
        s.dictionary.contains(tokens[1]),
        !all_correct(evaluation(tokens[1], answer)),
        guesses.len() < MAX_TRIES,
    ensures
        ({
            let gs = guesses.push((glyphs(evaluation(tokens[1], answer)), tokens[1]));
            let out = step_spec(
                DialogueView::Guess { answer, guesses, last_input },
                s,
                tokens,
                picked,
            );
            &&& gs.len() < MAX_TRIES ==> out == (
                DialogueView::Guess { answer, guesses: gs, last_input: tokens },
                Some(tries_text(gs.len()) + "/6\n"@ + history_text(gs)),
            )
            &&& gs.len() == MAX_TRIES ==> out == (
                DialogueView::Start,
                Some("You lost. 6/6. Cringe.\nAnswer was "@ + answer + "\n"@ + history_text(gs)),
            )
        }),
{
    lemma_commands_distinct();
}

} // verus!
