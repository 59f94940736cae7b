//! The format the word lists are saved in: one word per line, each line
//! ended by a line break. When read, a line also ends at a carriage return
//! followed by a line break.

use vstd::prelude::*;
use crate::words::{is_line, lemma_views_push, views};

verus! {

/// The text that holds `ws`, one per line.
pub open spec fn lines_text(ws: Seq<Seq<char>>) -> Seq<char>
    decreases ws.len(),
{
    if ws.len() == 0 {
        Seq::empty()
    } else {
        lines_text(ws.drop_last()) + ws.last() + seq!['\n']
    }
}

/// A line without the carriage return that ends it, if one does.
pub open spec fn without_cr(line: Seq<char>) -> Seq<char> {
    if line.len() > 0 && line.last() == '\r' {
        line.drop_last()
    } else {
        line
    }
}

/// Reading `t` from the start: the lines ended so far, and the text of the
/// line not yet ended.
pub open spec fn lines_read(t: Seq<char>) -> (Seq<Seq<char>>, Seq<char>)
    decreases t.len(),
{
    if t.len() == 0 {
        (Seq::empty(), Seq::empty())
    } else {
        let (ls, cur) = lines_read(t.drop_last());
        if t.last() == '\n' {
            (ls.push(without_cr(cur)), Seq::empty())
        } else {
            (ls, cur.push(t.last()))
        }
    }
}

/// The lines of `t`; a last line without its line break counts too, and
/// keeps a carriage return at its end.
pub open spec fn lines_of(t: Seq<char>) -> Seq<Seq<char>> {
    let (ls, cur) = lines_read(t);
    if cur.len() == 0 {
        ls
    } else {
        ls.push(cur)
    }
}

/// Relies on `String::push`: the character is appended at the end.
#[verifier::external_body]
fn push_char(s: &mut String, c: char)
    ensures
        final(s)@ == old(s)@.push(c),
{
    s.push(c)
}

/// The text that saves `words`, one per line.
pub fn encode_lines(words: &Vec<String>) -> (r: String)
    ensures
        r@ == lines_text(views(words@)),
{
    let mut r = String::new();
    let mut i: usize = 0;
    while i < words.len()
        invariant
            i <= words@.len(),
            r@ == lines_text(views(words@).subrange(0, i as int)),
        decreases words@.len() - i,
    {
        r.append(words[i].as_str());
        r.append("\n");
        proof {
            let s = views(words@).subrange(0, i as int + 1);
            reveal_strlit("\n");
            assert(s.drop_last() =~= views(words@).subrange(0, i as int));
            assert(s.last() == words@[i as int]@);
            assert("\n"@ =~= seq!['\n']);
            assert(r@ =~= lines_text(s));
        }
        i = i + 1;
    }
    assert(views(words@).subrange(0, words@.len() as int) =~= views(words@));
    r
}

/// The lines of `text`, in order.
pub fn decode_lines(text: &Vec<char>) -> (r: Vec<String>)
    ensures
        views(r@) == lines_of(text@),
{
    let mut lines: Vec<String> = Vec::new();
    // The pending line is `cur`, followed by a carriage return when
    // `held_cr` is set: it is dropped if a line break comes next.
    let mut cur = String::new();
    let mut held_cr = false;
    let mut i: usize = 0;
    while i < text.len()
        invariant
            i <= text@.len(),
            (views(lines@), if held_cr {
                cur@.push('\r')
            } else {
                cur@
            }) == lines_read(text@.subrange(0, i as int)),
            held_cr || without_cr(cur@) == cur@,
        decreases text@.len() - i,
    {
        let c = text[i];
        proof {
            let s = text@.subrange(0, i as int + 1);
            assert(s.drop_last() =~= text@.subrange(0, i as int));
            if held_cr {
                assert(cur@.push('\r').drop_last() =~= cur@);
            }
        }
        if c == '\n' {
            proof {
                lemma_views_push(lines@, cur);
            }
            lines.push(cur);
            cur = String::new();
            held_cr = false;
        } else {
            if held_cr {
                push_char(&mut cur, '\r');
            }
            if c == '\r' {
                held_cr = true;
            } else {
                held_cr = false;
                push_char(&mut cur, c);
            }
            assert(cur@.len() > 0 ==> cur@.last() == cur@[cur@.len() - 1]);
        }
        i = i + 1;
    }
    assert(text@.subrange(0, text@.len() as int) =~= text@);
    if held_cr {
        push_char(&mut cur, '\r');
    }
    if cur.unicode_len() > 0 {
        proof {
            lemma_views_push(lines@, cur);
        }
        lines.push(cur);
    }
    lines
}

/// Reading on after a complete text, a piece without line breaks only
/// extends the pending line.
proof fn lemma_read_piece(t: Seq<char>, w: Seq<char>)
    requires
        !w.contains('\n'),
    ensures
        lines_read(t + w) == (lines_read(t).0, lines_read(t).1 + w),
    decreases w.len(),
{
    if w.len() == 0 {
        assert(t + w =~= t);
        assert(lines_read(t).1 + w =~= lines_read(t).1);
    } else {
        let w0 = w.drop_last();
        assert(!w0.contains('\n')) by {
            if w0.contains('\n') {
                let k = choose|k: int| 0 <= k < w0.len() && w0[k] == '\n';
                assert(w[k] == '\n');
            }
        }
        lemma_read_piece(t, w0);
        assert((t + w).drop_last() =~= t + w0);
        assert(w.last() == w[w.len() - 1]);
        assert(lines_read(t).1 + w0 + seq![w.last()] =~= lines_read(t).1 + w);
    }
}

/// The saved text of lines that each read back as themselves gives the same
/// lines.
pub proof fn lemma_lines_round_trip(ws: Seq<Seq<char>>)
    requires
        forall|i: int| 0 <= i < ws.len() ==> is_line(#[trigger] ws[i]),
    ensures
        lines_read(lines_text(ws)) == (ws, Seq::<char>::empty()),
        lines_of(lines_text(ws)) == ws,
    decreases ws.len(),
{
    if ws.len() > 0 {
        let pre = ws.drop_last();
        let w = ws.last();
        assert forall|i: int| 0 <= i < pre.len() implies is_line(#[trigger] pre[i]) by {
            assert(pre[i] == ws[i]);
        }
        lemma_lines_round_trip(pre);
        assert(is_line(ws[ws.len() - 1]));
        lemma_read_piece(lines_text(pre), w);
        let t = lines_text(ws);
        assert(t.drop_last() =~= lines_text(pre) + w);
        assert(Seq::<char>::empty() + w =~= w);
        assert(pre.push(w) =~= ws);
    } else {
        assert(lines_text(ws) =~= Seq::<char>::empty());
    }
}

} // verus!
