//! Words as character sequences, and lists of words without repeats.

use vstd::prelude::*;

verus! {

/// The characters of each string of a list.
pub open spec fn views(v: Seq<String>) -> Seq<Seq<char>> {
    v.map_values(|s: String| s@)
}

/// A text that reads back as itself from one line of a word list: it holds
/// no line break and does not end in a carriage return.
pub open spec fn is_line(w: Seq<char>) -> bool {
    !w.contains('\n') && !(w.len() > 0 && w.last() == '\r')
}

/// A playable word: five characters, none of them a line break.
pub open spec fn is_word(w: Seq<char>) -> bool {
    w.len() == 5 && is_line(w)
}

pub proof fn lemma_views_push(v: Seq<String>, x: String)
    ensures
        views(v.push(x)) == views(v).push(x@),
{
    assert(views(v.push(x)) =~= views(v).push(x@));
}

pub proof fn lemma_views_remove(v: Seq<String>, k: int)
    requires
        0 <= k < v.len(),
    ensures
        views(v.remove(k)) == views(v).remove(k),
{
    assert(views(v.remove(k)) =~= views(v).remove(k));
}

/// Appending a word that is not there keeps a list free of repeats and adds
/// the word to its set.
pub proof fn lemma_push_fresh(s: Seq<Seq<char>>, w: Seq<char>)
    requires
        s.no_duplicates(),
        !s.contains(w),
    ensures
        s.push(w).no_duplicates(),
        s.push(w).to_set() == s.to_set().insert(w),
{
    let t = s.push(w);
    assert forall|i: int, j: int| 0 <= i < t.len() && 0 <= j < t.len() && i != j implies t[i]
        != t[j] by {
        if i == s.len() {
            assert(s[j] == t[j]);
        } else if j == s.len() {
            assert(s[i] == t[i]);
        }
    }
    assert forall|x: Seq<char>| #[trigger] t.contains(x) <==> s.contains(x) || x == w by {
        if s.contains(x) {
            let i = choose|i: int| 0 <= i < s.len() && s[i] == x;
            assert(t[i] == x);
        }
        if x == w {
            assert(t[s.len() as int] == x);
        }
    }
    assert(t.to_set() =~= s.to_set().insert(w));
}

/// Taking one entry out of a list free of repeats removes that word from its
/// set and nothing else.
pub proof fn lemma_remove_unique(s: Seq<Seq<char>>, k: int)
    requires
        s.no_duplicates(),
        0 <= k < s.len(),
    ensures
        s.remove(k).no_duplicates(),
        s.remove(k).to_set() == s.to_set().remove(s[k]),
{
    let t = s.remove(k);
    assert forall|i: int| 0 <= i < t.len() implies #[trigger] t[i] == if i < k {
        s[i]
    } else {
        s[i + 1]
    } by {}
    assert forall|i: int, j: int| 0 <= i < t.len() && 0 <= j < t.len() && i != j implies t[i]
        != t[j] by {
        let si = if i < k {
            i
        } else {
            i + 1
        };
        let sj = if j < k {
            j
        } else {
            j + 1
        };
        assert(t[i] == s[si] && t[j] == s[sj]);
    }
    assert forall|x: Seq<char>| #[trigger] t.contains(x) <==> s.contains(x) && x != s[k] by {
        if t.contains(x) {
            let i = choose|i: int| 0 <= i < t.len() && t[i] == x;
            let si = if i < k {
                i
            } else {
                i + 1
            };
            assert(s[si] == x);
        }
        if s.contains(x) && x != s[k] {
            let i = choose|i: int| 0 <= i < s.len() && s[i] == x;
            if i < k {
                assert(t[i] == x);
            } else {
                assert(t[i - 1] == x);
            }
        }
    }
    assert(t.to_set() =~= s.to_set().remove(s[k]));
}

/// The position of `w` in `v`, if it is there.
pub fn find_word(v: &Vec<String>, w: &String) -> (r: Option<usize>)
    ensures
        match r {
            Some(k) => k < v@.len() && views(v@)[k as int] == w@,
            None => !views(v@).contains(w@),
        },
{
    let mut k: usize = 0;
    while k < v.len()
        invariant
            k <= v@.len(),
            forall|j: int| 0 <= j < k ==> views(v@)[j] != w@,
        decreases v@.len() - k,
    {
        if v[k] == *w {
            return Some(k);
        }
        k = k + 1;
    }
    None
}

/// Whether `w` reads back as itself from one line.
pub fn check_line(w: &str) -> (r: bool)
    ensures
        r == is_line(w@),
{
    let n = w.unicode_len();
    let mut i: usize = 0;
    while i < n
        invariant
            n == w@.len(),
            i <= n,
            forall|j: int| 0 <= j < i ==> w@[j] != '\n',
        decreases n - i,
    {
        if w.get_char(i) == '\n' {
            return false;
        }
        i = i + 1;
    }
    !(n > 0 && w.get_char(n - 1) == '\r')
}

/// Whether `w` is a playable word.
pub fn check_word(w: &str) -> (r: bool)
    ensures
        r == is_word(w@),
{
    w.unicode_len() == 5 && check_line(w)
}

} // verus!
