//! The shared word lists: the words a game may pick as its answer, the words
//! accepted as guesses, and a marker for unsaved changes.

use rand::Rng;
use vstd::prelude::*;
use crate::persist::{encode_lines, lemma_lines_round_trip, lines_of, lines_text};
use crate::words::{
    check_word, find_word, is_line, is_word, lemma_push_fresh, lemma_remove_unique,
    lemma_views_push, lemma_views_remove, views,
};

verus! {

/// A change to both word lists.
pub enum DictionaryAction {
    /// Adds each playable word to both lists.
    Add(Vec<String>),
    /// Removes each word from both lists.
    Remove(Vec<String>),
}

/// What a `WordStore` holds: its two lists, in order, and whether they
/// changed since they were last saved.
pub ghost struct StoreView {
    pub playable: Seq<Seq<char>>,
    pub dictionary: Seq<Seq<char>>,
    pub dirty: bool,
}

/// The two word lists and their dirty marker.
pub struct WordStore {
    playable: Vec<String>,
    dictionary: Vec<String>,
    dirty: bool,
}

impl View for WordStore {
    type V = StoreView;

    closed spec fn view(&self) -> StoreView {
        StoreView {
            playable: views(self.playable@),
            dictionary: views(self.dictionary@),
            dirty: self.dirty,
        }
    }
}

/// The words of `ws` that are playable.
pub open spec fn playable_in(ws: Seq<Seq<char>>) -> Set<Seq<char>> {
    Set::new(|w: Seq<char>| ws.contains(w) && is_word(w))
}

/// The words that adding `ws` to lists holding `p` and `d` puts into at least
/// one of them, in the order of their first appearance in `ws`.
pub open spec fn added_words(ws: Seq<Seq<char>>, p: Set<Seq<char>>, d: Set<Seq<char>>) -> Seq<
    Seq<char>,
>
    decreases ws.len(),
{
    if ws.len() == 0 {
        Seq::empty()
    } else {
        let pre = ws.drop_last();
        let w = ws.last();
        if is_word(w) && !(p.contains(w) && d.contains(w)) && !pre.contains(w) {
            added_words(pre, p, d).push(w)
        } else {
            added_words(pre, p, d)
        }
    }
}

/// The words that removing `ws` from lists holding `p` and `d` takes out of
/// at least one of them, in the order of their first appearance in `ws`.
pub open spec fn removed_words(ws: Seq<Seq<char>>, p: Set<Seq<char>>, d: Set<Seq<char>>) -> Seq<
    Seq<char>,
>
    decreases ws.len(),
{
    if ws.len() == 0 {
        Seq::empty()
    } else {
        let pre = ws.drop_last();
        let w = ws.last();
        if (p.contains(w) || d.contains(w)) && !pre.contains(w) {
            removed_words(pre, p, d).push(w)
        } else {
            removed_words(pre, p, d)
        }
    }
}

impl StoreView {
    /// Neither list repeats a word.
    pub open spec fn wf(self) -> bool {
        &&& self.playable.no_duplicates()
        &&& self.dictionary.no_duplicates()
    }
}

/// The words of `lines`, each once, in the order of their first appearance.
fn unique_words(lines: &Vec<String>) -> (r: Vec<String>)
    ensures
        views(r@).no_duplicates(),
        views(r@).to_set() == views(lines@).to_set(),
{
    let mut r: Vec<String> = Vec::new();
    let mut i: usize = 0;
    while i < lines.len()
        invariant
            i <= lines@.len(),
            views(r@).no_duplicates(),
            views(r@).to_set() == views(lines@).subrange(0, i as int).to_set(),
        decreases lines@.len() - i,
    {
        let w = &lines[i];
        let ghost pre = views(lines@).subrange(0, i as int);
        assert(views(lines@).subrange(0, i as int + 1) =~= pre.push(w@));
        if find_word(&r, w).is_none() {
            let c = w.clone();
            proof {
                lemma_push_fresh(views(r@), w@);
                lemma_views_push(r@, c);
            }
            r.push(c);
        }
        proof {
            broadcast use vstd::seq_lib::lemma_seq_contains_after_push;

            assert(views(r@).to_set() =~= pre.push(w@).to_set());
        }
        i = i + 1;
    }
    assert(views(lines@).subrange(0, lines@.len() as int) =~= views(lines@));
    r
}

/// Relies on rand's `Rng::gen_range` over `thread_rng()`: a number drawn from
/// `0..n`, which panics only when the range is empty.
#[verifier::external_body]
pub(crate) fn random_index(n: usize) -> (r: usize)
    requires
        n > 0,
    ensures
        r < n,
{
    rand::thread_rng().gen_range(0..n)
}

impl WordStore {
    /// Builds the lists from loaded lines: every line of each, once;
    /// nothing is unsaved.
    pub fn new(playable_lines: Vec<String>, dictionary_lines: Vec<String>) -> (r: WordStore)
        ensures
            r@.wf(),
            r@.playable.to_set() == views(playable_lines@).to_set(),
            r@.dictionary.to_set() == views(dictionary_lines@).to_set(),
            !r@.dirty,
    {
        WordStore {
            playable: unique_words(&playable_lines),
            dictionary: unique_words(&dictionary_lines),
            dirty: false,
        }
    }

    /// Whether `word` is accepted as a guess.
    pub fn is_dictionary_word(&self, word: &String) -> (r: bool)
        ensures
            r == self@.dictionary.contains(word@),
    {
        find_word(&self.dictionary, word).is_some()
    }

    /// The number of playable words.
    pub fn playable_len(&self) -> (r: usize)
        ensures
            r == self@.playable.len(),
    {
        self.playable.len()
    }

    /// The playable word at position `k`.
    pub fn playable_word(&self, k: usize) -> (r: String)
        requires
            k < self@.playable.len(),
        ensures
            r@ == self@.playable[k as int],
    {
        self.playable[k].clone()
    }

    /// A playable word drawn at random.
    pub fn get_random_word(&self) -> (r: String)
        requires
            self@.playable.len() > 0,
        ensures
            self@.playable.contains(r@),
    {
        let k = random_index(self.playable.len());
        let r = self.playable_word(k);
        assert(self@.playable[k as int] == r@);
        r
    }
    fn add_words(&mut self, ws: &Vec<String>) -> (r: Vec<String>)
        requires
            old(self)@.wf(),
        ensures
            final(self)@.wf(),
            final(self)@.dirty == old(self)@.dirty,
            final(self)@.playable.to_set() == old(self)@.playable.to_set() + playable_in(
                views(ws@),
            ),
            final(self)@.dictionary.to_set() == old(self)@.dictionary.to_set() + playable_in(
                views(ws@),
            ),
            views(r@) == added_words(
                views(ws@),
                old(self)@.playable.to_set(),
                old(self)@.dictionary.to_set(),
            ),
    {
        let ghost p0 = self@.playable.to_set();
        let ghost d0 = self@.dictionary.to_set();
        let mut added: Vec<String> = Vec::new();
        let mut i: usize = 0;
        while i < ws.len()
            invariant
                i <= ws@.len(),
                self@.wf(),
                self@.dirty == old(self)@.dirty,
                p0 == old(self)@.playable.to_set(),
                d0 == old(self)@.dictionary.to_set(),
                self@.playable.to_set() == p0 + playable_in(views(ws@).subrange(0, i as int)),
                self@.dictionary.to_set() == d0 + playable_in(views(ws@).subrange(0, i as int)),
                views(added@) == added_words(views(ws@).subrange(0, i as int), p0, d0),
            decreases ws@.len() - i,
        {
            let w = &ws[i];
            let ghost pre = views(ws@).subrange(0, i as int);
            proof {
                assert(views(ws@).subrange(0, i as int + 1) =~= pre.push(w@));
                assert(pre.push(w@).drop_last() =~= pre);
            }
            if check_word(w.as_str()) {
                let in_p = find_word(&self.playable, w).is_some();
                let in_d = find_word(&self.dictionary, w).is_some();
                proof {
                    assert(self@.playable.to_set().contains(w@) == in_p);
                    assert(self@.dictionary.to_set().contains(w@) == in_d);
                    assert(in_p == (p0.contains(w@) || pre.contains(w@)));
                    assert(in_d == (d0.contains(w@) || pre.contains(w@)));
                }
                if !in_p {
                    let c = w.clone();
                    proof {
                        lemma_push_fresh(self@.playable, w@);
                        lemma_views_push(self.playable@, c);
                    }
                    self.playable.push(c);
                }
                if !in_d {
                    let c = w.clone();
                    proof {
                        lemma_push_fresh(self@.dictionary, w@);
                        lemma_views_push(self.dictionary@, c);
                    }
                    self.dictionary.push(c);
                }
                if !in_p || !in_d {
                    let c = w.clone();
                    proof {
                        lemma_views_push(added@, c);
                    }
                    added.push(c);
                }
            }
            proof {
                broadcast use vstd::seq_lib::lemma_seq_contains_after_push;

                assert(self@.playable.to_set() =~= p0 + playable_in(pre.push(w@)));
                assert(self@.dictionary.to_set() =~= d0 + playable_in(pre.push(w@)));
            }
            i = i + 1;
        }
        assert(views(ws@).subrange(0, ws@.len() as int) =~= views(ws@));
        added
    }

    fn remove_words(&mut self, ws: &Vec<String>) -> (r: Vec<String>)
        requires
            old(self)@.wf(),
        ensures
            final(self)@.wf(),
            final(self)@.dirty == old(self)@.dirty,
            final(self)@.playable.to_set() == old(self)@.playable.to_set() - views(ws@).to_set(),
            final(self)@.dictionary.to_set() == old(self)@.dictionary.to_set() - views(
                ws@,
            ).to_set(),
            views(r@) == removed_words(
                views(ws@),
                old(self)@.playable.to_set(),
                old(self)@.dictionary.to_set(),
            ),
    {
        let ghost p0 = self@.playable.to_set();
        let ghost d0 = self@.dictionary.to_set();
        let mut removed: Vec<String> = Vec::new();
        let mut i: usize = 0;
        while i < ws.len()
            invariant
                i <= ws@.len(),
                self@.wf(),
                self@.dirty == old(self)@.dirty,
                p0 == old(self)@.playable.to_set(),
                d0 == old(self)@.dictionary.to_set(),
                self@.playable.to_set() == p0 - views(ws@).subrange(0, i as int).to_set(),
                self@.dictionary.to_set() == d0 - views(ws@).subrange(0, i as int).to_set(),
                views(removed@) == removed_words(views(ws@).subrange(0, i as int), p0, d0),
            decreases ws@.len() - i,
        {
            let w = &ws[i];
            let ghost pre = views(ws@).subrange(0, i as int);
            proof {
                assert(views(ws@).subrange(0, i as int + 1) =~= pre.push(w@));
                assert(pre.push(w@).drop_last() =~= pre);
            }
            let in_p = find_word(&self.playable, w);
            let in_d = find_word(&self.dictionary, w);
            proof {
                assert(self@.playable.to_set().contains(w@) == in_p.is_some());
                assert(self@.dictionary.to_set().contains(w@) == in_d.is_some());
                assert(in_p.is_some() == (p0.contains(w@) && !pre.to_set().contains(w@)));
                assert(in_d.is_some() == (d0.contains(w@) && !pre.to_set().contains(w@)));
            }
            if let Some(k) = in_p {
                proof {
                    lemma_remove_unique(self@.playable, k as int);
                    lemma_views_remove(self.playable@, k as int);
                }
                self.playable.remove(k);
            }
            if let Some(k) = in_d {
                proof {
                    lemma_remove_unique(self@.dictionary, k as int);
                    lemma_views_remove(self.dictionary@, k as int);
                }
                self.dictionary.remove(k);
            }
            if in_p.is_some() || in_d.is_some() {
                let c = w.clone();
                proof {
                    lemma_views_push(removed@, c);
                }
                removed.push(c);
            }
            proof {
                broadcast use vstd::seq_lib::lemma_seq_contains_after_push;

                assert(self@.playable.to_set() =~= p0 - pre.push(w@).to_set());
                assert(self@.dictionary.to_set() =~= d0 - pre.push(w@).to_set());
            }
            i = i + 1;
        }
        assert(views(ws@).subrange(0, ws@.len() as int) =~= views(ws@));
        removed
    }

    /// Applies `action` to both lists at once and returns the words it
    /// actually changed, each once, in the order of their first appearance.
    /// Adding skips what is not a playable word; either way the lists are
    /// marked unsaved when anything changed.
    pub fn edit_dictionary(&mut self, action: &DictionaryAction) -> (r: Vec<String>)
        requires
            old(self)@.wf(),
        ensures
            final(self)@.wf(),
            final(self)@.dirty == (old(self)@.dirty || r@.len() > 0),
            match action {
                DictionaryAction::Add(ws) => {
                    &&& final(self)@.playable.to_set() == old(self)@.playable.to_set()
                        + playable_in(views(ws@))
                    &&& final(self)@.dictionary.to_set() == old(self)@.dictionary.to_set()
                        + playable_in(views(ws@))
                    &&& views(r@) == added_words(
                        views(ws@),
                        old(self)@.playable.to_set(),
                        old(self)@.dictionary.to_set(),
                    )
                },
                DictionaryAction::Remove(ws) => {
                    &&& final(self)@.playable.to_set() == old(self)@.playable.to_set() - views(
                        ws@,
                    ).to_set()
                    &&& final(self)@.dictionary.to_set() == old(self)@.dictionary.to_set()
                        - views(ws@).to_set()
                    &&& views(r@) == removed_words(
                        views(ws@),
                        old(self)@.playable.to_set(),
                        old(self)@.dictionary.to_set(),
                    )
                },
            },
    {
        let r = match action {
            DictionaryAction::Add(ws) => self.add_words(ws),
            DictionaryAction::Remove(ws) => self.remove_words(ws),
        };
        if r.len() > 0 {
            self.dirty = true;
        }
        r
    }
    /// Marks the lists as unsaved, so that the next wake of the saving
    /// worker writes them again.
    pub fn mark_unsaved(&mut self)
        ensures
            final(self)@.playable == old(self)@.playable,
            final(self)@.dictionary == old(self)@.dictionary,
            final(self)@.dirty,
    {
        self.dirty = true;
    }

    /// One wake of the saving worker: when the lists changed since they were
    /// last saved, clears the marker and hands back the text of each list
    /// (playable first) to be written over its file; otherwise does nothing.
    pub fn take_unsaved(&mut self) -> (r: Option<(String, String)>)
        ensures
            final(self)@.playable == old(self)@.playable,
            final(self)@.dictionary == old(self)@.dictionary,
            !final(self)@.dirty,
            match r {
                Some((p, d)) => {
                    &&& old(self)@.dirty
                    &&& p@ == lines_text(old(self)@.playable)
                    &&& d@ == lines_text(old(self)@.dictionary)
                },
                None => !old(self)@.dirty,
            },
    {
        if self.dirty {
            self.dirty = false;
            Some((encode_lines(&self.playable), encode_lines(&self.dictionary)))
        } else {
            None
        }
    }
}

/// Saving and loading again loses nothing: the texts that `take_unsaved`
/// hands out, read back with `decode_lines`, give the same lists, so
/// `WordStore::new` rebuilds the same two sets. This holds for lists whose
/// words all read back from one line: what the edits add always does.
pub proof fn lemma_save_reload(v: StoreView)
    requires
        v.wf(),
        forall|i: int| 0 <= i < v.playable.len() ==> is_line(#[trigger] v.playable[i]),
        forall|i: int| 0 <= i < v.dictionary.len() ==> is_line(#[trigger] v.dictionary[i]),
    ensures
        lines_of(lines_text(v.playable)) == v.playable,
        lines_of(lines_text(v.dictionary)) == v.dictionary,
        lines_of(lines_text(v.playable)).to_set() == v.playable.to_set(),
        lines_of(lines_text(v.dictionary)).to_set() == v.dictionary.to_set(),
{
    lemma_lines_round_trip(v.playable);
    lemma_lines_round_trip(v.dictionary);
}

/// Adding words that both lists already hold is idempotent: no word is
/// reported as added, and neither set changes.
pub proof fn lemma_add_present(ws: Seq<Seq<char>>, p: Set<Seq<char>>, d: Set<Seq<char>>)
    requires
        forall|i: int| 0 <= i < ws.len() ==> p.contains(#[trigger] ws[i]) && d.contains(ws[i]),
    ensures
        added_words(ws, p, d).len() == 0,
        p + playable_in(ws) == p,
        d + playable_in(ws) == d,
    decreases ws.len(),
{
    if ws.len() > 0 {
        let pre = ws.drop_last();
        assert forall|i: int| 0 <= i < pre.len() implies p.contains(#[trigger] pre[i])
            && d.contains(pre[i]) by {
            assert(pre[i] == ws[i]);
        }
        lemma_add_present(pre, p, d);
        assert(ws.last() == ws[ws.len() - 1]);
    }
    assert(p + playable_in(ws) =~= p);
    assert(d + playable_in(ws) =~= d);
}

} // verus!
