//! Report layout: titled sections of key/value rows, word wrapping and
//! truncation.
//!
//! A section is a titled rule with rows hanging beneath a fixed key
//! column. Values are never cut: long values wrap onto continuation lines
//! aligned with the value column. Padding is computed on plain text before
//! color is applied, and widths count characters (every glyph used is one
//! column wide).

use crate::ui::glyph;
use crate::ui::mascot::MARK;
use crate::ui::pal;
use crate::ui::theme::{
    bold_text, dim_text, gradient_span, line_text, line_view, lines_view, paint_text, Line, Palette, Rgb, Span, SpanV,
};
use crate::util::text::{chars_of, dec, dec_chars_wide, is_space, is_space_char, push_all, push_str, string_of};
use vstd::prelude::*;

verus! {

/// Narrowest render width, after clamping.
pub const MIN_WIDTH: usize = 64;

/// Widest render width, after clamping.
pub const MAX_WIDTH: usize = 160;

/// Width used when the terminal size is unknown.
pub const DEFAULT_WIDTH: usize = 100;

/// Width of the key column.
pub const KEY_W: usize = 16;

/// Column where values start (row indent 4, key column, one space).
pub const VALUE_COL: usize = 21;

/// Emphasis for a value.
#[derive(Debug, Clone, Copy, PartialEq, Eq, Structural)]
pub enum Tone {
    /// Ordinary value.
    Plain,
    /// Highlighted value.
    Key,
    /// Signature / fingerprint value.
    Sig,
    /// Good news.
    Good,
    /// Bad news.
    Bad,
    /// Muted supporting value.
    Muted,
}

/// The color of a tone.
pub open spec fn tone_rgb(t: Tone) -> Rgb {
    match t {
        Tone::Plain => pal::chrome(),
        Tone::Key => pal::amber(),
        Tone::Sig => pal::magenta(),
        Tone::Good => pal::lime(),
        Tone::Bad => pal::rust(),
        Tone::Muted => pal::mist(),
    }
}

impl Tone {
    /// The color of this tone.
    pub fn rgb(self) -> (r: Rgb)
        ensures
            r == tone_rgb(self),
    {
        match self {
            Tone::Plain => pal::chrome(),
            Tone::Key => pal::amber(),
            Tone::Sig => pal::magenta(),
            Tone::Good => pal::lime(),
            Tone::Bad => pal::rust(),
            Tone::Muted => pal::mist(),
        }
    }
}

/// `n` copies of `c`.
pub open spec fn repeat(c: char, n: nat) -> Seq<char> {
    Seq::new(n, |i: int| c)
}

/// `a - b`, or 0 when `b` is larger.
pub open spec fn sat_sub(a: int, b: int) -> nat {
    if a > b {
        (a - b) as nat
    } else {
        0
    }
}

/// Words of `s` so far and the word being read: split at white space.
pub open spec fn word_state(s: Seq<char>) -> (Seq<Seq<char>>, Seq<char>)
    decreases s.len(),
{
    if s.len() == 0 {
        (Seq::empty(), Seq::empty())
    } else {
        let (w, cur) = word_state(s.drop_last());
        if is_space(s.last()) {
            if cur.len() > 0 {
                (w.push(cur), Seq::empty())
            } else {
                (w, Seq::empty())
            }
        } else {
            (w, cur.push(s.last()))
        }
    }
}

/// The white-space-separated words of `s`.
pub open spec fn words(s: Seq<char>) -> Seq<Seq<char>> {
    let (w, cur) = word_state(s);
    if cur.len() > 0 {
        w.push(cur)
    } else {
        w
    }
}

/// `rest` cut into lines of `max` characters after `out`; the last piece
/// (at most `max`) stays open.
pub open spec fn chunked(out: Seq<Seq<char>>, rest: Seq<char>, max: nat) -> (Seq<Seq<char>>, Seq<char>)
    decreases rest.len(),
{
    if max == 0 || rest.len() <= max {
        (out, rest)
    } else {
        chunked(out.push(rest.take(max as int)), rest.skip(max as int), max)
    }
}

/// Wrapping state after one more word: the word joins the open line when
/// it fits; otherwise the open line is closed (first filled with the head
/// of a word longer than a whole line) and the word (or its tail) starts
/// the next, cut into whole lines when too long.
pub open spec fn wrap_step(st: (Seq<Seq<char>>, Seq<char>), word: Seq<char>, max: nat) -> (Seq<Seq<char>>, Seq<char>) {
    let (out, cur) = st;
    if cur.len() > 0 {
        if cur.len() + 1 + word.len() <= max {
            (out, cur + seq![' '] + word)
        } else {
            let room = sat_sub(max as int, (cur.len() + 1) as int);
            if word.len() > max && room > 0 {
                chunked(out.push(cur + seq![' '] + word.take(room as int)), word.skip(room as int), max)
            } else {
                chunked(out.push(cur), word, max)
            }
        }
    } else {
        chunked(out, word, max)
    }
}

/// Wrapping state after the words `ws`.
pub open spec fn wrap_fold(ws: Seq<Seq<char>>, max: nat) -> (Seq<Seq<char>>, Seq<char>)
    decreases ws.len(),
{
    if ws.len() == 0 {
        (Seq::empty(), Seq::empty())
    } else {
        wrap_step(wrap_fold(ws.drop_last(), max), ws.last(), max)
    }
}

/// Lines of `s` wrapped at `max` characters: `s` itself when it fits (or
/// `max` is 0), else its words greedily filled into lines.
pub open spec fn wrap_spec(s: Seq<char>, max: nat) -> Seq<Seq<char>> {
    if max == 0 || s.len() <= max {
        seq![s]
    } else {
        let (out, cur) = wrap_fold(words(s), max);
        if cur.len() > 0 {
            out.push(cur)
        } else {
            out
        }
    }
}

/// Every line is at most `max` characters.
pub open spec fn all_within(lines: Seq<Seq<char>>, max: nat) -> bool {
    forall|i: int| 0 <= i < lines.len() ==> (#[trigger] lines[i]).len() <= max
}

proof fn lemma_chunked_within(out: Seq<Seq<char>>, rest: Seq<char>, max: nat)
    requires
        max > 0,
        all_within(out, max),
    ensures
        all_within(chunked(out, rest, max).0, max),
        chunked(out, rest, max).1.len() <= max,
    decreases rest.len(),
{
    if rest.len() > max {
        let o2 = out.push(rest.take(max as int));
        assert(all_within(o2, max)) by {
            assert forall|i: int| 0 <= i < o2.len() implies (#[trigger] o2[i]).len() <= max by {
                if i < out.len() {
                    assert(o2[i] == out[i]);
                }
            }
        }
        lemma_chunked_within(o2, rest.skip(max as int), max);
    }
}

proof fn lemma_fold_within(ws: Seq<Seq<char>>, max: nat)
    requires
        max > 0,
    ensures
        all_within(wrap_fold(ws, max).0, max),
        wrap_fold(ws, max).1.len() <= max,
    decreases ws.len(),
{
    if ws.len() > 0 {
        lemma_fold_within(ws.drop_last(), max);
        let (out, cur) = wrap_fold(ws.drop_last(), max);
        let word = ws.last();
        if cur.len() > 0 && cur.len() + 1 + word.len() > max {
            let room = sat_sub(max as int, (cur.len() + 1) as int);
            let closed = if word.len() > max && room > 0 {
                cur + seq![' '] + word.take(room as int)
            } else {
                cur
            };
            let o2 = out.push(closed);
            assert(all_within(o2, max)) by {
                assert forall|i: int| 0 <= i < o2.len() implies (#[trigger] o2[i]).len() <= max by {
                    if i < out.len() {
                        assert(o2[i] == out[i]);
                    }
                }
            }
            if word.len() > max && room > 0 {
                lemma_chunked_within(o2, word.skip(room as int), max);
            } else {
                lemma_chunked_within(o2, word, max);
            }
        } else if cur.len() == 0 {
            lemma_chunked_within(out, word, max);
        }
    }
}

/// Wrapped lines are never longer than the width asked for (when the text
/// does not fit on one line and the width is not 0).
pub proof fn lemma_wrap_within(s: Seq<char>, max: nat)
    requires
        max > 0,
    ensures
        s.len() > max ==> all_within(wrap_spec(s, max), max),
{
    if s.len() > max {
        lemma_fold_within(words(s), max);
        let (out, cur) = wrap_fold(words(s), max);
        if cur.len() > 0 {
            assert forall|i: int| 0 <= i < out.push(cur).len() implies (#[trigger] out.push(cur)[i]).len()
                <= max by {
                if i < out.len() {
                    assert(out.push(cur)[i] == out[i]);
                }
            }
        }
    }
}

/// The characters of `s` other than white space, in order.
pub open spec fn solid(s: Seq<char>) -> Seq<char>
    decreases s.len(),
{
    if s.len() == 0 {
        Seq::empty()
    } else if is_space(s.last()) {
        solid(s.drop_last())
    } else {
        solid(s.drop_last()).push(s.last())
    }
}

/// The lines of `ls` joined without separators.
pub open spec fn flat(ls: Seq<Seq<char>>) -> Seq<char>
    decreases ls.len(),
{
    if ls.len() == 0 {
        Seq::empty()
    } else {
        flat(ls.drop_last()) + ls.last()
    }
}

proof fn lemma_solid_add(a: Seq<char>, b: Seq<char>)
    ensures
        solid(a + b) == solid(a) + solid(b),
    decreases b.len(),
{
    if b.len() == 0 {
        assert(a + b =~= a);
        assert(solid(a) + solid(b) =~= solid(a));
    } else {
        assert((a + b).drop_last() =~= a + b.drop_last());
        lemma_solid_add(a, b.drop_last());
        if !is_space(b.last()) {
            assert(solid(a) + solid(b.drop_last()).push(b.last()) =~= (solid(a) + solid(b.drop_last())).push(
                b.last(),
            ));
        }
    }
}

proof fn lemma_flat_push(ls: Seq<Seq<char>>, x: Seq<char>)
    ensures
        flat(ls.push(x)) == flat(ls) + x,
{
    assert(ls.push(x).drop_last() =~= ls);
}

proof fn lemma_solid_idem(s: Seq<char>)
    ensures
        solid(solid(s)) == solid(s),
    decreases s.len(),
{
    if s.len() > 0 {
        lemma_solid_idem(s.drop_last());
        if !is_space(s.last()) {
            let t = solid(s.drop_last()).push(s.last());
            assert(t.drop_last() =~= solid(s.drop_last()));
        }
    }
}

proof fn lemma_word_state_solid(s: Seq<char>)
    ensures
        flat(word_state(s).0) + word_state(s).1 == solid(s),
    decreases s.len(),
{
    if s.len() > 0 {
        lemma_word_state_solid(s.drop_last());
        let (w, cur) = word_state(s.drop_last());
        if is_space(s.last()) {
            if cur.len() > 0 {
                lemma_flat_push(w, cur);
            }
            assert(flat(word_state(s).0) + word_state(s).1 =~= flat(w) + cur);
        } else {
            assert(flat(w) + cur.push(s.last()) =~= (flat(w) + cur).push(s.last()));
        }
    }
}

proof fn lemma_words_solid(s: Seq<char>)
    ensures
        solid(flat(words(s))) == solid(s),
{
    lemma_word_state_solid(s);
    let (w, cur) = word_state(s);
    if cur.len() > 0 {
        lemma_flat_push(w, cur);
    }
    lemma_solid_idem(s);
}

proof fn lemma_chunked_flat(out: Seq<Seq<char>>, rest: Seq<char>, max: nat)
    ensures
        flat(chunked(out, rest, max).0) + chunked(out, rest, max).1 == flat(out) + rest,
    decreases rest.len(),
{
    if !(max == 0 || rest.len() <= max) {
        let o2 = out.push(rest.take(max as int));
        lemma_chunked_flat(o2, rest.skip(max as int), max);
        lemma_flat_push(out, rest.take(max as int));
        assert(rest.take(max as int) + rest.skip(max as int) =~= rest);
        assert(flat(out) + rest.take(max as int) + rest.skip(max as int) =~= flat(out) + rest);
    }
}

proof fn lemma_fold_solid(ws: Seq<Seq<char>>, max: nat)
    ensures
        solid(flat(wrap_fold(ws, max).0) + wrap_fold(ws, max).1) == solid(flat(ws)),
    decreases ws.len(),
{
    if ws.len() > 0 {
        let p = ws.drop_last();
        let word = ws.last();
        lemma_fold_solid(p, max);
        lemma_flat_push(p, word);
        assert(ws == p.push(word));
        let (out, cur) = wrap_fold(p, max);
        lemma_solid_add(flat(p), word);
        lemma_solid_add(flat(out) + cur, word);
        assert(solid(seq![' ']) == Seq::<char>::empty()) by {
            assert(seq![' '].drop_last() =~= Seq::<char>::empty());
            assert(seq![' '].last() == ' ');
            assert(is_space(' '));
            assert(solid(Seq::<char>::empty()) == Seq::<char>::empty());
        }
        if cur.len() > 0 {
            if cur.len() + 1 + word.len() <= max {
                lemma_solid_add(flat(out) + cur, seq![' ']);
                lemma_solid_add(flat(out) + cur + seq![' '], word);
                assert(flat(out) + (cur + seq![' '] + word) =~= flat(out) + cur + seq![' '] + word);
            } else {
                let room = sat_sub(max as int, (cur.len() + 1) as int);
                if word.len() > max && room > 0 {
                    let head = cur + seq![' '] + word.take(room as int);
                    lemma_chunked_flat(out.push(head), word.skip(room as int), max);
                    lemma_flat_push(out, head);
                    assert(word.take(room as int) + word.skip(room as int) =~= word);
                    assert(flat(out) + head + word.skip(room as int) =~= flat(out) + cur + seq![' '] + word);
                    lemma_solid_add(flat(out) + cur, seq![' ']);
                    lemma_solid_add(flat(out) + cur + seq![' '], word);
                } else {
                    lemma_chunked_flat(out.push(cur), word, max);
                    lemma_flat_push(out, cur);
                }
            }
        } else {
            lemma_chunked_flat(out, word, max);
            assert(flat(out) + cur =~= flat(out));
        }
    }
}

/// Wrapping drops nothing but white space: the lines, joined, hold every
/// other character of the text, in order (long values wrap, never
/// truncate).
pub proof fn lemma_wrap_keeps_text(s: Seq<char>, max: nat)
    ensures
        solid(flat(wrap_spec(s, max))) == solid(s),
{
    if max == 0 || s.len() <= max {
        lemma_flat_push(Seq::<Seq<char>>::empty(), s);
        assert(seq![s] =~= Seq::<Seq<char>>::empty().push(s));
        assert(flat(Seq::<Seq<char>>::empty()) + s =~= s);
    } else {
        lemma_fold_solid(words(s), max);
        lemma_words_solid(s);
        let (out, cur) = wrap_fold(words(s), max);
        if cur.len() > 0 {
            lemma_flat_push(out, cur);
        } else {
            assert(flat(out) + cur =~= flat(out));
        }
    }
}

/// The views of a list of character vectors.
pub open spec fn char_lines(v: Seq<Vec<char>>) -> Seq<Seq<char>> {
    v.map_values(|x: Vec<char>| x@)
}

fn split_words(s: &Vec<char>) -> (res: Vec<Vec<char>>)
    ensures
        char_lines(res@) == words(s@),
{
    let mut out: Vec<Vec<char>> = Vec::new();
    let mut cur: Vec<char> = Vec::new();
    let mut i: usize = 0;
    assert(s@.take(0) =~= Seq::<char>::empty());
    while i < s.len()
        invariant
            i <= s@.len(),
            (char_lines(out@), cur@) == word_state(s@.take(i as int)),
        decreases s.len() - i,
    {
        assert(s@.take(i + 1).drop_last() =~= s@.take(i as int));
        assert(s@.take(i + 1).last() == s@[i as int]);
        let ghost before = char_lines(out@);
        let c = s[i];
        if is_space_char(c) {
            if cur.len() > 0 {
                out.push(cur);
                assert(char_lines(out@) =~= before.push(word_state(s@.take(i as int)).1));
            }
            cur = Vec::new();
            assert(cur@ =~= Seq::<char>::empty());
        } else {
            cur.push(c);
        }
        i += 1;
    }
    assert(s@.take(s@.len() as int) =~= s@);
    if cur.len() > 0 {
        let ghost before = char_lines(out@);
        out.push(cur);
        assert(char_lines(out@) =~= before.push(word_state(s@).1));
    }
    out
}

fn take_chars(s: &Vec<char>, from: usize, n: usize) -> (r: Vec<char>)
    requires
        from + n <= s@.len(),
    ensures
        r@ == s@.subrange(from as int, (from + n) as int),
{
    let mut out: Vec<char> = Vec::new();
    let mut i: usize = 0;
    assert(s@.len() == s.len());
    while i < n
        invariant
            i <= n,
            from + n <= s@.len(),
            s@.len() <= usize::MAX,
            out@ == s@.subrange(from as int, (from + i) as int),
        decreases n - i,
    {
        out.push(s[from + i]);
        i += 1;
        assert(out@ =~= s@.subrange(from as int, (from + i) as int));
    }
    out
}

/// Close whole `max`-character pieces of `rest` into `out`; return the
/// open remainder.
fn chunk_into(out: &mut Vec<Vec<char>>, rest: &Vec<char>, max: usize) -> (cur: Vec<char>)
    requires
        max > 0,
    ensures
        (char_lines(final(out)@), cur@) == chunked(char_lines(old(out)@), rest@, max as nat),
{
    let mut pos: usize = 0;
    assert(rest@.skip(0) =~= rest@);
    while rest.len() - pos > max
        invariant
            pos <= rest@.len(),
            max > 0,
            chunked(char_lines(old(out)@), rest@, max as nat) == chunked(
                char_lines(out@),
                rest@.skip(pos as int),
                max as nat,
            ),
        decreases rest.len() - pos,
    {
        let piece = take_chars(rest, pos, max);
        assert(piece@ =~= rest@.skip(pos as int).take(max as int));
        let ghost before = char_lines(out@);
        let ghost old_out = out@;
        out.push(piece);
        assert(out@ =~= old_out.push(piece));
        assert(char_lines(out@) =~= before.push(piece@));
        assert(rest@.skip(pos as int).skip(max as int) =~= rest@.skip(pos + max));
        pos = pos + max;
    }
    let n = rest.len() - pos;
    let tail = take_chars(rest, pos, n);
    assert(tail@ =~= rest@.skip(pos as int));
    tail
}

/// Split `s` into lines of at most `max` characters, breaking at white
/// space and hard-splitting words longer than a whole line.
pub fn wrap(s: &str, max: usize) -> (res: Vec<String>)
    ensures
        res@.map_values(|x: String| x@) == wrap_spec(s@, max as nat),
        max > 0 && s@.len() > max ==> all_within(res@.map_values(|x: String| x@), max as nat),
{
    proof {
        if max > 0 {
            lemma_wrap_within(s@, max as nat);
        }
    }
    let cs = chars_of(s);
    if max == 0 || cs.len() <= max {
        let mut v: Vec<String> = Vec::new();
        v.push(string_of(&cs));
        assert(v@.map_values(|x: String| x@) =~= seq![s@]);
        return v;
    }
    let ws = split_words(&cs);
    let mut out: Vec<Vec<char>> = Vec::new();
    let mut cur: Vec<char> = Vec::new();
    let mut k: usize = 0;
    assert(char_lines(ws@).take(0) =~= Seq::<Seq<char>>::empty());
    assert(char_lines(out@) =~= Seq::<Seq<char>>::empty());
    while k < ws.len()
        invariant
            k <= ws@.len(),
            max > 0,
            (char_lines(out@), cur@) == wrap_fold(char_lines(ws@).take(k as int), max as nat),
            cur@.len() <= max,
        decreases ws.len() - k,
    {
        proof {
            lemma_fold_within(char_lines(ws@).take(k + 1), max as nat);
        }
        assert(char_lines(ws@).take(k + 1).drop_last() =~= char_lines(ws@).take(k as int));
        assert(char_lines(ws@).take(k + 1).last() == ws@[k as int]@);
        let word = &ws[k];
        let wl = word.len();
        let ghost o0 = char_lines(out@);
        let ghost c0 = cur@;
        if cur.len() > 0 {
            if cur.len() < max && wl <= max - cur.len() - 1 {
                cur.push(' ');
                let mut j: usize = 0;
                let ghost base = cur@;
                while j < wl
                    invariant
                        j <= wl == word@.len(),
                        cur@ == base + word@.take(j as int),
                    decreases wl - j,
                {
                    cur.push(word[j]);
                    j += 1;
                    assert(cur@ =~= base + word@.take(j as int));
                }
                assert(word@.take(wl as int) =~= word@);
                assert(cur@ =~= c0 + seq![' '] + word@);
            } else {
                let room: usize = if cur.len() < max && max - cur.len() > 1 { max - cur.len() - 1 } else { 0 };
                if wl > max && room > 0 {
                    cur.push(' ');
                    let head = take_chars(word, 0, room);
                    let mut j: usize = 0;
                    let ghost base = cur@;
                    while j < room
                        invariant
                            j <= room,
                            head@.len() == room,
                            cur@ == base + head@.take(j as int),
                        decreases room - j,
                    {
                        cur.push(head[j]);
                        j += 1;
                        assert(cur@ =~= base + head@.take(j as int));
                    }
                    assert(head@.take(room as int) =~= head@);
                    assert(head@ =~= word@.take(room as int));
                    let tail = take_chars(word, room, wl - room);
                    assert(tail@ =~= word@.skip(room as int));
                    assert(cur@ =~= c0 + seq![' '] + word@.take(room as int));
                    let ghost old_out = out@;
                    out.push(cur);
                    assert(out@ =~= old_out.push(cur));
                    assert(char_lines(out@) =~= o0.push(c0 + seq![' '] + word@.take(room as int)));
                    cur = chunk_into(&mut out, &tail, max);
                } else {
                    let ghost old_out = out@;
                    out.push(cur);
                    assert(out@ =~= old_out.push(cur));
                    assert(char_lines(out@) =~= o0.push(c0));
                    cur = chunk_into(&mut out, word, max);
                }
            }
        } else {
            cur = chunk_into(&mut out, word, max);
        }
        k += 1;
    }
    assert(char_lines(ws@).take(ws@.len() as int) =~= char_lines(ws@));
    if cur.len() > 0 {
        out.push(cur);
    }
    let mut res: Vec<String> = Vec::new();
    let mut i: usize = 0;
    while i < out.len()
        invariant
            i <= out@.len(),
            res@.map_values(|x: String| x@) == char_lines(out@).take(i as int),
        decreases out.len() - i,
    {
        let ghost before = res@;
        let t = string_of(&out[i]);
        res.push(t);
        assert(res@ =~= before.push(t));
        assert(res@.map_values(|x: String| x@) =~= before.map_values(|x: String| x@).push(out@[i as int]@));
        i += 1;
        assert(char_lines(out@).take(i as int) =~= char_lines(out@).take(i - 1).push(out@[i - 1]@));
    }
    assert(char_lines(out@).take(out@.len() as int) =~= char_lines(out@));
    proof {
        lemma_wrap_within(s@, max as nat);
        assert(res@.map_values(|x: String| x@) == wrap_spec(s@, max as nat));
        assert(all_within(wrap_spec(s@, max as nat), max as nat));
    }
    res
}

/// `s` cut to `max` characters, the last replaced by `…` when cut.
pub open spec fn truncate_spec(s: Seq<char>, max: nat) -> Seq<char> {
    if s.len() <= max {
        s
    } else if max == 0 {
        Seq::empty()
    } else {
        s.take(max - 1) + seq!['…']
    }
}

/// Truncation never exceeds `max` characters, leaves text that fits
/// unchanged, and otherwise keeps the first `max - 1` characters.
pub proof fn lemma_truncate_within(s: Seq<char>, max: nat)
    ensures
        truncate_spec(s, max).len() <= max,
        s.len() <= max ==> truncate_spec(s, max) == s,
        s.len() > max && max > 0 ==> truncate_spec(s, max).take(max - 1) == s.take(max - 1),
{
    if s.len() > max && max > 0 {
        assert(truncate_spec(s, max).take(max - 1) =~= s.take(max - 1));
    }
}

/// Truncate to `max` characters, marking elision with `…`.
pub fn truncate(s: &str, max: usize) -> (r: String)
    ensures
        r@ == truncate_spec(s@, max as nat),
{
    let cs = chars_of(s);
    if cs.len() <= max {
        return string_of(&cs);
    }
    if max == 0 {
        let v: Vec<char> = Vec::new();
        assert(v@ =~= Seq::<char>::empty());
        return string_of(&v);
    }
    let mut out = take_chars(&cs, 0, max - 1);
    out.push('…');
    assert(out@ =~= s@.take(max - 1) + seq!['…']);
    string_of(&out)
}

/// `n` spaces.
pub fn spaces(n: usize) -> (r: Vec<char>)
    ensures
        r@ == repeat(' ', n as nat),
{
    let mut v: Vec<char> = Vec::new();
    let mut i: usize = 0;
    while i < n
        invariant
            i <= n,
            v@ == repeat(' ', i as nat),
        decreases n - i,
    {
        v.push(' ');
        i += 1;
        assert(v@ =~= repeat(' ', i as nat));
    }
    v
}

/// `n` copies of the string `s`.
pub open spec fn repeat_str(s: Seq<char>, n: nat) -> Seq<char>
    decreases n,
{
    if n == 0 {
        Seq::empty()
    } else {
        repeat_str(s, (n - 1) as nat) + s
    }
}

/// `n` copies of `s`, as text.
pub fn repeat_text(s: &str, n: usize) -> (r: String)
    ensures
        r@ == repeat_str(s@, n as nat),
{
    let mut v: Vec<char> = Vec::new();
    let mut i: usize = 0;
    while i < n
        invariant
            i <= n,
            v@ == repeat_str(s@, i as nat),
        decreases n - i,
    {
        push_str(&mut v, s);
        i += 1;
    }
    string_of(&v)
}

/// A line of one finished text span.
pub open spec fn text_line(t: Seq<char>) -> Seq<SpanV> {
    seq![SpanV::Text(t)]
}

/// A line of the characters of `v`, as one span.
pub fn one_span(v: &Vec<char>) -> (l: Line)
    ensures
        line_view(l) == text_line(v@),
{
    let mut spans: Vec<Span> = Vec::new();
    spans.push(Span::Text(string_of(v)));
    let l = Line(spans);
    assert(line_view(l) =~= text_line(v@));
    l
}

/// A row inside a section.
#[derive(Debug, Clone)]
pub enum Row {
    /// `key   value`, with an optional dim note after the value.
    Kv {
        /// Left column label.
        key: String,
        /// Value.
        value: String,
        /// Emphasis of the value.
        tone: Tone,
        /// Dim text after the value.
        note: Option<String>,
    },
    /// A full-width muted line under the value column.
    Note(String),
}

/// What a row holds.
pub enum RowV {
    Kv { key: Seq<char>, value: Seq<char>, tone: Tone, note: Option<Seq<char>> },
    Note(Seq<char>),
}

/// The view of a row.
pub open spec fn row_view(r: Row) -> RowV {
    match r {
        Row::Kv { key, value, tone, note } => RowV::Kv {
            key: key@,
            value: value@,
            tone,
            note: match note {
                Some(n) => Some(n@),
                None => None,
            },
        },
        Row::Note(t) => RowV::Note(t@),
    }
}

/// The value lines of a key/value row: the key (padded) before the first
/// chunk, the value column before the others.
pub open spec fn value_lines(key: Seq<char>, chunks: Seq<Seq<char>>, tone: Tone, color: bool) -> Seq<Seq<char>>
    decreases chunks.len(),
{
    if chunks.len() == 0 {
        Seq::empty()
    } else {
        let prev = value_lines(key, chunks.drop_last(), tone, color);
        let chunk = chunks.last();
        let line = if chunks.len() == 1 {
            "    "@ + dim_text(color, key, pal::mist()) + repeat(' ', sat_sub(16, key.len() as int)) + " "@
                + paint_text(color, chunk, tone_rgb(tone))
        } else {
            repeat(' ', 21) + paint_text(color, chunk, tone_rgb(tone))
        };
        prev.push(line)
    }
}

/// The lines of a row at `width`.
pub open spec fn row_lines(r: RowV, color: bool, width: nat) -> Seq<Seq<char>> {
    match r {
        RowV::Kv { key, value, tone, note } => {
            let avail = sat_sub(width as int, 21);
            let chunks = wrap_spec(value, avail);
            let lines = value_lines(key, chunks, tone, color);
            match note {
                Some(n) => {
                    let fits = chunks.len() > 0 && chunks.last().len() + 2 + n.len() <= avail;
                    if fits {
                        lines.update(lines.len() - 1, lines.last() + "  "@ + dim_text(color, n, pal::steel()))
                    } else {
                        lines.push(repeat(' ', 21) + dim_text(color, n, pal::steel()))
                    }
                },
                None => lines,
            }
        },
        RowV::Note(t) => wrap_spec(t, sat_sub(width as int, 21)).map_values(
            |c: Seq<char>| repeat(' ', 21) + dim_text(color, c, pal::mist()),
        ),
    }
}

pub(crate) proof fn lemma_value_lines_len(key: Seq<char>, chunks: Seq<Seq<char>>, tone: Tone, color: bool)
    ensures
        value_lines(key, chunks, tone, color).len() == chunks.len(),
    decreases chunks.len(),
{
    if chunks.len() > 0 {
        lemma_value_lines_len(key, chunks.drop_last(), tone, color);
    }
}

impl Row {
    /// Key/value row.
    pub fn kv(key: &str, value: &str) -> (r: Row)
        ensures
            row_view(r) == (RowV::Kv { key: key@, value: value@, tone: Tone::Plain, note: None }),
    {
        Row::Kv { key: string_of(&chars_of(key)), value: string_of(&chars_of(value)), tone: Tone::Plain, note: None }
    }

    /// Key/value row with emphasis.
    pub fn kv_tone(key: &str, value: &str, tone: Tone) -> (r: Row)
        ensures
            row_view(r) == (RowV::Kv { key: key@, value: value@, tone, note: None }),
    {
        Row::Kv { key: string_of(&chars_of(key)), value: string_of(&chars_of(value)), tone, note: None }
    }

    /// Attach a dim note (key/value rows only).
    pub fn note(self, text: &str) -> (r: Row)
        ensures
            row_view(r) == match row_view(self) {
                RowV::Kv { key, value, tone, note } => RowV::Kv { key, value, tone, note: Some(text@) },
                other => other,
            },
    {
        match self {
            Row::Kv { key, value, tone, note } => Row::Kv { key, value, tone, note: Some(string_of(&chars_of(text))) },
            other => other,
        }
    }

    /// Render this row at `width`, wrapping long values.
    fn push(&self, out: &mut Vec<Line>, p: Palette, width: usize)
        ensures
            lines_view(final(out)@) == lines_view(old(out)@) + row_lines(row_view(*self), p.colored(), width as nat).map_values(
                |t: Seq<char>| text_line(t),
            ),
    {
        let ghost start = lines_view(out@);
        match self {
            Row::Kv { key, value, tone, note } => {
                let avail: usize = if width > 21 { width - 21 } else { 0 };
                let kl = chars_of(key.as_str()).len();
                let pad: usize = if kl < 16 { 16 - kl } else { 0 };
                let chunks = wrap(value.as_str(), avail);
                let ghost cv = chunks@.map_values(|x: String| x@);
                let mut lines: Vec<Vec<char>> = Vec::new();
                let mut i: usize = 0;
                assert(cv.take(0) =~= Seq::<Seq<char>>::empty());
                while i < chunks.len()
                    invariant
                        i <= chunks@.len(),
                        cv == chunks@.map_values(|x: String| x@),
                        kl == key@.len(),
                        pad == sat_sub(16, key@.len() as int),
                        char_lines(lines@) == value_lines(key@, cv.take(i as int), *tone, p.colored()),
                    decreases chunks.len() - i,
                {
                    assert(cv.take(i + 1).drop_last() =~= cv.take(i as int));
                    assert(cv.take(i + 1).last() == chunks@[i as int]@);
                    let mut line: Vec<char> = Vec::new();
                    if i == 0 {
                        push_str(&mut line, "    ");
                        let k = p.dim(key.as_str(), pal::mist());
                        push_str(&mut line, k.as_str());
                        push_all(&mut line, &spaces(pad));
                        push_str(&mut line, " ");
                    } else {
                        push_all(&mut line, &spaces(21));
                    }
                    let v = p.paint(chunks[i].as_str(), tone.rgb());
                    push_str(&mut line, v.as_str());
                    let ghost before = char_lines(lines@);
                    lines.push(line);
                    assert(char_lines(lines@) =~= before.push(line@));
                    i += 1;
                }
                assert(cv.take(cv.len() as int) =~= cv);
                proof {
                    lemma_value_lines_len(key@, cv, *tone, p.colored());
                }
                match note {
                    Some(n) => {
                        let nl = chars_of(n.as_str()).len();
                        let nd = p.dim(n.as_str(), pal::steel());
                        let fits = chunks.len() > 0 && chars_of(chunks[chunks.len() - 1].as_str()).len() <= avail
                            && nl <= avail - chars_of(chunks[chunks.len() - 1].as_str()).len() && 2 <= avail
                            - chars_of(chunks[chunks.len() - 1].as_str()).len() - nl;
                        let ghost before = char_lines(lines@);
                        if fits {
                            let last = lines.len() - 1;
                            let mut l = lines.remove(last);
                            push_str(&mut l, "  ");
                            push_str(&mut l, nd.as_str());
                            lines.push(l);
                            assert(char_lines(lines@) =~= before.update(before.len() - 1, before.last() + "  "@ + nd@));
                        } else {
                            let mut l = spaces(21);
                            push_str(&mut l, nd.as_str());
                            lines.push(l);
                            assert(char_lines(lines@) =~= before.push(repeat(' ', 21) + nd@));
                        }
                    },
                    None => {},
                }
                let mut j: usize = 0;
                while j < lines.len()
                    invariant
                        j <= lines@.len(),
                        lines_view(out@) == start + char_lines(lines@).take(j as int).map_values(
                            |t: Seq<char>| text_line(t),
                        ),
                    decreases lines.len() - j,
                {
                    let ghost before = lines_view(out@);
                    let l = one_span(&lines[j]);
                    out.push(l);
                    assert(lines_view(out@) =~= before.push(text_line(lines@[j as int]@)));
                    j += 1;
                    assert(char_lines(lines@).take(j as int).map_values(|t: Seq<char>| text_line(t)) =~= char_lines(
                        lines@,
                    ).take(j - 1).map_values(|t: Seq<char>| text_line(t)).push(text_line(lines@[j - 1]@)));
                }
                assert(char_lines(lines@).take(lines@.len() as int) =~= char_lines(lines@));
            },
            Row::Note(text) => {
                let avail: usize = if width > 21 { width - 21 } else { 0 };
                let chunks = wrap(text.as_str(), avail);
                let ghost cv = chunks@.map_values(|x: String| x@);
                let mut i: usize = 0;
                while i < chunks.len()
                    invariant
                        i <= chunks@.len(),
                        cv == chunks@.map_values(|x: String| x@),
                        lines_view(out@) == start + cv.take(i as int).map_values(
                            |c: Seq<char>| repeat(' ', 21) + dim_text(p.colored(), c, pal::mist()),
                        ).map_values(|t: Seq<char>| text_line(t)),
                    decreases chunks.len() - i,
                {
                    let mut l = spaces(21);
                    let d = p.dim(chunks[i].as_str(), pal::mist());
                    push_str(&mut l, d.as_str());
                    let ghost before = lines_view(out@);
                    out.push(one_span(&l));
                    assert(lines_view(out@) =~= before.push(text_line(l@)));
                    i += 1;
                    assert(cv.take(i as int).map_values(
                        |c: Seq<char>| repeat(' ', 21) + dim_text(p.colored(), c, pal::mist()),
                    ).map_values(|t: Seq<char>| text_line(t)) =~= cv.take(i - 1).map_values(
                        |c: Seq<char>| repeat(' ', 21) + dim_text(p.colored(), c, pal::mist()),
                    ).map_values(|t: Seq<char>| text_line(t)).push(text_line(l@)));
                }
                assert(cv.take(cv.len() as int) =~= cv);
            },
        }
    }
}

/// A titled section.
#[derive(Debug, Clone)]
pub struct Panel {
    title: String,
    accent: Rgb,
    rows: Vec<Row>,
}

/// What a section holds.
pub struct PanelV {
    pub title: Seq<char>,
    pub accent: Rgb,
    pub rows: Seq<RowV>,
}

impl View for Panel {
    type V = PanelV;

    closed spec fn view(&self) -> PanelV {
        PanelV { title: self.title@, accent: self.accent, rows: self.rows@.map_values(|r: Row| row_view(r)) }
    }
}

/// The title line of a section: the title, then a rule fading from the
/// accent to the void color up to `width`.
pub open spec fn panel_header(title: Seq<char>, accent: Rgb, color: bool, width: nat) -> Seq<SpanV> {
    let rule_len = sat_sub(width as int, (2 + title.len() + 1) as int);
    let head = bold_text(color, title, accent);
    if rule_len == 0 {
        text_line("  "@ + head)
    } else {
        seq![SpanV::Text("  "@ + head + " "@), gradient_span(color, repeat('─', rule_len), accent, pal::void())]
    }
}

/// The lines of rows, in order.
pub open spec fn rows_lines(rows: Seq<RowV>, color: bool, width: nat) -> Seq<Seq<SpanV>>
    decreases rows.len(),
{
    if rows.len() == 0 {
        Seq::empty()
    } else {
        rows_lines(rows.drop_last(), color, width) + row_lines(rows.last(), color, width).map_values(
            |t: Seq<char>| text_line(t),
        )
    }
}

/// The lines of a section: nothing without rows, else the title line and
/// the rows' lines.
pub open spec fn panel_lines(p: PanelV, color: bool, width: nat) -> Seq<Seq<SpanV>> {
    if p.rows.len() == 0 {
        Seq::empty()
    } else {
        seq![panel_header(p.title, p.accent, color, width)] + rows_lines(p.rows, color, width)
    }
}

/// Every line of `ls` is at most `width` characters once its gradients
/// are uncolored.
pub open spec fn lines_within(ls: Seq<Seq<SpanV>>, width: nat) -> bool {
    forall|i: int| 0 <= i < ls.len() ==> (#[trigger] line_text(ls[i])).len() <= width
}

/// Whether a row lays out inside `width` columns: a key of at most 16
/// characters, and a note (when given) no wider than the value column.
pub open spec fn row_fits(r: RowV, width: nat) -> bool {
    match r {
        RowV::Kv { key, note, .. } => key.len() <= 16 && match note {
            Some(n) => n.len() + 21 <= width,
            None => true,
        },
        RowV::Note(_) => true,
    }
}

pub(crate) proof fn lemma_text_line(t: Seq<char>)
    ensures
        line_text(text_line(t)) == t,
{
    let l = text_line(t);
    assert(l.drop_last() =~= Seq::<SpanV>::empty());
    assert(line_text(Seq::<SpanV>::empty()) == Seq::<char>::empty());
    assert(l.last() == SpanV::Text(t));
    assert(Seq::<char>::empty() + t =~= t);
}

proof fn lemma_chunks_within(v: Seq<char>, avail: nat)
    requires
        avail > 0,
    ensures
        all_within(wrap_spec(v, avail), avail),
{
    lemma_wrap_within(v, avail);
    if v.len() <= avail {
        assert(wrap_spec(v, avail) == seq![v]);
    }
}

proof fn lemma_value_lines_within(key: Seq<char>, chunks: Seq<Seq<char>>, tone: Tone, width: nat)
    requires
        width > 21,
        key.len() <= 16,
        all_within(chunks, (width - 21) as nat),
    ensures
        all_within(value_lines(key, chunks, tone, false), width),
        value_lines(key, chunks, tone, false).len() == chunks.len(),
    decreases chunks.len(),
{
    lemma_value_lines_len(key, chunks, tone, false);
    if chunks.len() > 0 {
        let p = chunks.drop_last();
        assert forall|i: int| 0 <= i < p.len() implies (#[trigger] p[i]).len() <= (width - 21) as nat by {
            assert(p[i] == chunks[i]);
        }
        lemma_value_lines_within(key, p, tone, width);
        let prev = value_lines(key, p, tone, false);
        let last = value_lines(key, chunks, tone, false).last();
        assert(chunks.last() == chunks[chunks.len() - 1]);
        reveal_strlit("    ");
        reveal_strlit(" ");
        assert(dim_text(false, key, pal::mist()) == key);
        assert(paint_text(false, chunks.last(), tone_rgb(tone)) == chunks.last());
        assert(last.len() == 21 + chunks.last().len());
        assert forall|i: int| 0 <= i < prev.len() + 1 implies (#[trigger] value_lines(key, chunks, tone, false)[i]).len()
            <= width by {
            if i < prev.len() {
                assert(value_lines(key, chunks, tone, false)[i] == prev[i]);
            }
        }
    }
}

proof fn lemma_value_last_len(key: Seq<char>, chunks: Seq<Seq<char>>, tone: Tone)
    requires
        key.len() <= 16,
        chunks.len() > 0,
    ensures
        value_lines(key, chunks, tone, false).last().len() == 21 + chunks.last().len(),
{
    reveal_strlit("    ");
    reveal_strlit(" ");
    assert(dim_text(false, key, pal::mist()) == key);
    assert(paint_text(false, chunks.last(), tone_rgb(tone)) == chunks.last());
}

proof fn lemma_row_within(r: RowV, width: nat)
    requires
        width > 21,
        row_fits(r, width),
    ensures
        all_within(row_lines(r, false, width), width),
{
    let avail = (width - 21) as nat;
    assert(sat_sub(width as int, 21) == avail);
    match r {
        RowV::Kv { key, value, tone, note } => {
            let chunks = wrap_spec(value, avail);
            lemma_chunks_within(value, avail);
            lemma_value_lines_within(key, chunks, tone, width);
            let lines = value_lines(key, chunks, tone, false);
            match note {
                Some(n) => {
                    let fits = chunks.len() > 0 && chunks.last().len() + 2 + n.len() <= avail;
                    if fits {
                        let last = lines.last() + "  "@ + n;
                        assert(lines.last() == lines[lines.len() - 1]);
                        assert(chunks.last() == chunks[chunks.len() - 1]);
                        lemma_value_last_len(key, chunks, tone);
                        reveal_strlit("  ");
                        let out = lines.update(lines.len() - 1, last);
                        assert forall|i: int| 0 <= i < out.len() implies (#[trigger] out[i]).len() <= width by {
                            if i < lines.len() - 1 {
                                assert(out[i] == lines[i]);
                            }
                        }
                    } else {
                        let out = lines.push(repeat(' ', 21) + n);
                        assert forall|i: int| 0 <= i < out.len() implies (#[trigger] out[i]).len() <= width by {
                            if i < lines.len() {
                                assert(out[i] == lines[i]);
                            }
                        }
                    }
                },
                None => {},
            }
        },
        RowV::Note(t) => {
            let chunks = wrap_spec(t, avail);
            lemma_chunks_within(t, avail);
            let out = chunks.map_values(|c: Seq<char>| repeat(' ', 21) + dim_text(false, c, pal::mist()));
            assert forall|i: int| 0 <= i < out.len() implies (#[trigger] out[i]).len() <= width by {
                assert(out[i] == repeat(' ', 21) + chunks[i]);
            }
        },
    }
}

proof fn lemma_rows_within(rows: Seq<RowV>, width: nat)
    requires
        width > 21,
        forall|i: int| 0 <= i < rows.len() ==> row_fits(#[trigger] rows[i], width),
    ensures
        lines_within(rows_lines(rows, false, width), width),
    decreases rows.len(),
{
    if rows.len() > 0 {
        let p = rows.drop_last();
        assert forall|i: int| 0 <= i < p.len() implies row_fits(#[trigger] p[i], width) by {
            assert(p[i] == rows[i]);
        }
        lemma_rows_within(p, width);
        assert(row_fits(rows[rows.len() - 1], width));
        lemma_row_within(rows.last(), width);
        let prev = rows_lines(p, false, width);
        let mine = row_lines(rows.last(), false, width).map_values(|t: Seq<char>| text_line(t));
        assert forall|i: int| 0 <= i < prev.len() + mine.len() implies (#[trigger] line_text(
            rows_lines(rows, false, width)[i],
        )).len() <= width by {
            if i < prev.len() {
                assert(rows_lines(rows, false, width)[i] == prev[i]);
            } else {
                let j = i - prev.len();
                assert(rows_lines(rows, false, width)[i] == mine[j]);
                lemma_text_line(row_lines(rows.last(), false, width)[j]);
            }
        }
    }
}

/// A section laid out without color stays inside its width: every line,
/// the title line included, is at most `width` characters, when the
/// width leaves room for the value column, the title fits beside its rule,
/// every key fits its 16-wide column and every note fits the value column.
pub proof fn lemma_panel_within_width(p: PanelV, width: nat)
    requires
        width > 21,
        p.title.len() + 3 <= width,
        forall|i: int| 0 <= i < p.rows.len() ==> row_fits(#[trigger] p.rows[i], width),
    ensures
        lines_within(panel_lines(p, false, width), width),
{
    if p.rows.len() > 0 {
        lemma_rows_within(p.rows, width);
        let h = panel_header(p.title, p.accent, false, width);
        let rule_len = sat_sub(width as int, (2 + p.title.len() + 1) as int);
        if rule_len == 0 {
            lemma_text_line("  "@ + p.title);
            reveal_strlit("  ");
            assert(h == text_line("  "@ + p.title + Seq::<char>::empty())) by {
                assert(bold_text(false, p.title, p.accent) == p.title);
                assert("  "@ + p.title + Seq::<char>::empty() =~= "  "@ + p.title);
            }
            assert(line_text(h).len() <= width);
        } else {
            let a = SpanV::Text("  "@ + p.title + " "@);
            let b = SpanV::Text(repeat('─', rule_len));
            assert(h == seq![a, b]);
            assert(seq![a, b].drop_last() =~= seq![a]);
            assert(seq![a].drop_last() =~= Seq::<SpanV>::empty());
            assert(line_text(h) == line_text(seq![a]) + repeat('─', rule_len));
            assert(line_text(Seq::<SpanV>::empty()) == Seq::<char>::empty());
            assert(line_text(seq![a]) == Seq::<char>::empty() + ("  "@ + p.title + " "@));
            reveal_strlit("  ");
            reveal_strlit(" ");
            assert(line_text(h).len() <= width);
        }
        let ls = panel_lines(p, false, width);
        let rest = rows_lines(p.rows, false, width);
        assert forall|i: int| 0 <= i < ls.len() implies (#[trigger] line_text(ls[i])).len() <= width by {
            if i == 0 {
                assert(ls[0] == h);
            } else {
                assert(ls[i] == rest[i - 1]);
            }
        }
    }
}

fn rule(n: usize) -> (r: String)
    ensures
        r@ == repeat('─', n as nat),
{
    let mut v: Vec<char> = Vec::new();
    let mut i: usize = 0;
    while i < n
        invariant
            i <= n,
            v@ == repeat('─', i as nat),
        decreases n - i,
    {
        v.push('─');
        i += 1;
        assert(v@ =~= repeat('─', i as nat));
    }
    string_of(&v)
}

impl Panel {
    /// New section with the cyan accent.
    pub fn new(title: &str) -> (p: Panel)
        ensures
            p@ == (PanelV { title: title@, accent: pal::cyan(), rows: Seq::empty() }),
    {
        let p = Panel { title: string_of(&chars_of(title)), accent: pal::cyan(), rows: Vec::new() };
        assert(p@.rows =~= Seq::<RowV>::empty());
        p
    }

    /// Set the accent of the title and rule.
    pub fn accent(self, rgb: Rgb) -> (p: Panel)
        ensures
            p@ == (PanelV { accent: rgb, ..self@ }),
    {
        Panel { accent: rgb, ..self }
    }

    /// Append a row.
    pub fn row(self, row: Row) -> (p: Panel)
        ensures
            p@ == (PanelV { rows: self@.rows.push(row_view(row)), ..self@ }),
    {
        let mut p = self;
        let ghost before = p.rows@;
        p.rows.push(row);
        assert(p.rows@.map_values(|r: Row| row_view(r)) =~= before.map_values(|r: Row| row_view(r)).push(
            row_view(row),
        ));
        p
    }

    /// Append a key/value row only when `value` is present.
    pub fn row_opt(self, key: &str, value: Option<String>, tone: Tone) -> (p: Panel)
        ensures
            p@ == match value {
                Some(v) => PanelV {
                    rows: self@.rows.push(RowV::Kv { key: key@, value: v@, tone, note: None }),
                    ..self@
                },
                None => self@,
            },
    {
        match value {
            Some(v) => self.row(Row::kv_tone(key, v.as_str(), tone)),
            None => self,
        }
    }

    /// Render to lines: the title line and the rows; nothing when the
    /// section has no rows.
    pub fn render(&self, p: Palette, width: usize) -> (r: Vec<Line>)
        ensures
            lines_view(r@) == panel_lines(self@, p.colored(), width as nat),
    {
        let mut out: Vec<Line> = Vec::new();
        if self.rows.len() == 0 {
            assert(lines_view(out@) =~= Seq::<Seq<SpanV>>::empty());
            return out;
        }
        let h = self.header(p, width);
        out.push(h);
        let ghost rv = self.rows@.map_values(|r: Row| row_view(r));
        let mut i: usize = 0;
        assert(lines_view(out@) =~= seq![line_view(h)]);
        assert(rv.take(0) =~= Seq::<RowV>::empty());
        while i < self.rows.len()
            invariant
                i <= self.rows@.len(),
                rv == self.rows@.map_values(|r: Row| row_view(r)),
                lines_view(out@) == seq![panel_header(self.title@, self.accent, p.colored(), width as nat)]
                    + rows_lines(rv.take(i as int), p.colored(), width as nat),
            decreases self.rows.len() - i,
        {
            assert(rv.take(i + 1).drop_last() =~= rv.take(i as int));
            assert(rv.take(i + 1).last() == row_view(self.rows@[i as int]));
            self.rows[i].push(&mut out, p, width);
            i += 1;
        }
        assert(rv.take(rv.len() as int) =~= rv);
        out
    }

    fn header(&self, p: Palette, width: usize) -> (l: Line)
        ensures
            line_view(l) == panel_header(self.title@, self.accent, p.colored(), width as nat),
    {
        let tl = chars_of(self.title.as_str()).len();
        let rule_len: usize = if tl < width && width - tl > 3 { width - tl - 3 } else { 0 };
        let head = p.bold(self.title.as_str(), self.accent);
        let mut first: Vec<char> = Vec::new();
        push_str(&mut first, "  ");
        push_str(&mut first, head.as_str());
        let mut spans: Vec<Span> = Vec::new();
        if rule_len == 0 {
            spans.push(Span::Text(string_of(&first)));
            let l = Line(spans);
            assert(line_view(l) =~= text_line("  "@ + head@));
            return l;
        }
        let ghost f0 = first@;
        first.push(' ');
        proof {
            reveal_strlit(" ");
        }
        assert(first@ =~= f0 + " "@);
        spans.push(Span::Text(string_of(&first)));
        let r = rule(rule_len);
        spans.push(p.gradient(r.as_str(), self.accent, pal::void()));
        let l = Line(spans);
        assert(line_view(l) =~= seq![
            SpanV::Text("  "@ + head@ + " "@),
            gradient_span(p.colored(), repeat('─', rule_len as nat), self.accent, pal::void()),
        ]);
        l
    }
}

/// The plain text of the report header (wordmark, mode, target).
pub open spec fn header_plain(target: Seq<char>, mode: Seq<char>) -> Seq<char> {
    "grip  "@ + glyph::DOT@ + "  "@ + mode + "  "@ + glyph::DOT@ + "  "@ + target
}

/// The report header line: the gradient wordmark, mode and target, and a
/// rule to `width` (measured on the plain header text).
pub open spec fn header_line(target: Seq<char>, mode: Seq<char>, color: bool, width: nat) -> Seq<SpanV> {
    let rule_len = sat_sub(width as int, (2 + header_plain(target, mode).len() + 1) as int);
    let base = seq![
        SpanV::Text("  "@),
        gradient_span(color, "grip"@, pal::cyan(), pal::magenta()),
        SpanV::Text(
            "  "@ + dim_text(color, glyph::DOT@, pal::steel()) + "  "@ + dim_text(color, mode, pal::mist()) + "  "@
                + bold_text(color, target, pal::chrome()),
        ),
    ];
    if rule_len > 0 {
        base + seq![SpanV::Text(" "@), gradient_span(color, repeat('─', rule_len), pal::cyan(), pal::void())]
    } else {
        base
    }
}

/// The report header: wordmark, mode, target, and a gradient rule.
pub fn header(target: &str, mode: &str, p: Palette, width: usize) -> (r: Vec<Line>)
    ensures
        lines_view(r@) == seq![header_line(target@, mode@, p.colored(), width as nat)],
{
    let mut plain: Vec<char> = Vec::new();
    push_str(&mut plain, "grip  ");
    push_str(&mut plain, glyph::DOT);
    push_str(&mut plain, "  ");
    push_str(&mut plain, mode);
    push_str(&mut plain, "  ");
    push_str(&mut plain, glyph::DOT);
    push_str(&mut plain, "  ");
    push_str(&mut plain, target);
    assert(plain@ =~= header_plain(target@, mode@));
    let hl = plain.len();
    let rule_len: usize = if hl < width && width - hl > 3 { width - hl - 3 } else { 0 };
    let mut spans: Vec<Span> = Vec::new();
    spans.push(Span::Text(string_of(&chars_of("  "))));
    spans.push(p.gradient("grip", pal::cyan(), pal::magenta()));
    let mut mid: Vec<char> = Vec::new();
    push_str(&mut mid, "  ");
    push_str(&mut mid, p.dim(glyph::DOT, pal::steel()).as_str());
    push_str(&mut mid, "  ");
    push_str(&mut mid, p.dim(mode, pal::mist()).as_str());
    push_str(&mut mid, "  ");
    push_str(&mut mid, p.bold(target, pal::chrome()).as_str());
    spans.push(Span::Text(string_of(&mid)));
    if rule_len > 0 {
        spans.push(Span::Text(string_of(&chars_of(" "))));
        let r = rule(rule_len);
        spans.push(p.gradient(r.as_str(), pal::cyan(), pal::void()));
    }
    let l = Line(spans);
    assert(line_view(l) =~= header_line(target@, mode@, p.colored(), width as nat));
    let mut out: Vec<Line> = Vec::new();
    out.push(l);
    assert(lines_view(out@) =~= seq![line_view(l)]);
    out
}

/// The report footer line: the grip mark, the elapsed time when non-zero,
/// and the note when non-empty.
pub open spec fn footer_text(elapsed_ms: u128, note: Seq<char>, color: bool) -> Seq<char> {
    let mark = "  "@ + bold_text(color, MARK@, pal::lime());
    let timed = if elapsed_ms > 0 {
        mark + "  "@ + dim_text(color, dec(elapsed_ms as nat) + " ms"@, pal::mist())
    } else {
        mark
    };
    if note.len() > 0 {
        (if elapsed_ms > 0 {
            timed + "  "@ + dim_text(color, glyph::DOT@, pal::steel())
        } else {
            timed
        }) + "  "@ + dim_text(color, note, pal::steel())
    } else {
        timed
    }
}

/// The report footer; nothing when there is neither a time nor a note.
pub fn footer(elapsed_ms: u128, note: &str, p: Palette) -> (r: Vec<Line>)
    ensures
        lines_view(r@) == (if elapsed_ms == 0 && note@.len() == 0 {
            Seq::<Seq<SpanV>>::empty()
        } else {
            seq![text_line(footer_text(elapsed_ms, note@, p.colored()))]
        }),
{
    let mut out: Vec<Line> = Vec::new();
    let note_len = chars_of(note).len();
    if elapsed_ms == 0 && note_len == 0 {
        assert(lines_view(out@) =~= Seq::<Seq<SpanV>>::empty());
        return out;
    }
    let mut line: Vec<char> = Vec::new();
    push_str(&mut line, "  ");
    push_str(&mut line, p.bold(MARK, pal::lime()).as_str());
    if elapsed_ms > 0 {
        let mut t = dec_chars_wide(elapsed_ms);
        push_str(&mut t, " ms");
        push_str(&mut line, "  ");
        push_str(&mut line, p.dim(string_of(&t).as_str(), pal::mist()).as_str());
    }
    if note_len > 0 {
        if elapsed_ms > 0 {
            push_str(&mut line, "  ");
            push_str(&mut line, p.dim(glyph::DOT, pal::steel()).as_str());
        }
        push_str(&mut line, "  ");
        push_str(&mut line, p.dim(note, pal::steel()).as_str());
    }
    assert(line@ =~= footer_text(elapsed_ms, note@, p.colored()));
    out.push(one_span(&line));
    assert(lines_view(out@) =~= seq![text_line(line@)]);
    out
}

} // verus!
