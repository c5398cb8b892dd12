//! Text pieces of the human reports: joining, padding to a column,
//! splitting decoded text into `key: value` lines.

use crate::ui::panel::{repeat, sat_sub, spaces};
use crate::util::text::{chars_of, push_all, push_str, string_of};
use vstd::prelude::*;

verus! {

/// The characters of each string.
pub open spec fn strings_view(v: Seq<String>) -> Seq<Seq<char>> {
    v.map_values(|s: String| s@)
}

/// `parts` joined with `sep` between neighbours.
pub open spec fn join_spec(parts: Seq<Seq<char>>, sep: Seq<char>) -> Seq<char>
    decreases parts.len(),
{
    if parts.len() == 0 {
        Seq::empty()
    } else if parts.len() == 1 {
        parts[0]
    } else {
        join_spec(parts.drop_last(), sep) + sep + parts.last()
    }
}

/// Join `parts` with `sep`.
pub fn join(parts: &[String], sep: &str) -> (r: String)
    ensures
        r@ == join_spec(strings_view(parts@), sep@),
{
    let ghost sv = strings_view(parts@);
    let mut out: Vec<char> = Vec::new();
    if parts.len() == 0 {
        assert(out@ =~= join_spec(sv, sep@));
        return string_of(&out);
    }
    push_str(&mut out, parts[0].as_str());
    assert(sv.take(1).drop_last().len() == 0);
    assert(out@ =~= join_spec(sv.take(1), sep@));
    let mut i: usize = 1;
    while i < parts.len()
        invariant
            1 <= i <= parts@.len(),
            sv == strings_view(parts@),
            out@ == join_spec(sv.take(i as int), sep@),
        decreases parts.len() - i,
    {
        assert(sv.take(i + 1).drop_last() =~= sv.take(i as int));
        assert(sv.take(i + 1).last() == parts@[i as int]@);
        push_str(&mut out, sep);
        push_str(&mut out, parts[i].as_str());
        i += 1;
    }
    assert(sv.take(parts@.len() as int) =~= sv);
    string_of(&out)
}

/// `s` followed by spaces up to `n` characters (`{:<n}`).
pub open spec fn pad_right_spec(s: Seq<char>, n: nat) -> Seq<char> {
    s + repeat(' ', sat_sub(n as int, s.len() as int))
}

/// Spaces up to `n` characters, then `s` (`{:>n}`).
pub open spec fn pad_left_spec(s: Seq<char>, n: nat) -> Seq<char> {
    repeat(' ', sat_sub(n as int, s.len() as int)) + s
}

/// Left-align `s` in a column of `n` characters.
pub fn pad_right(s: &str, n: usize) -> (r: String)
    ensures
        r@ == pad_right_spec(s@, n as nat),
{
    let mut out = chars_of(s);
    let l = out.len();
    let k: usize = if l < n { n - l } else { 0 };
    push_all(&mut out, &spaces(k));
    string_of(&out)
}

/// Right-align `s` in a column of `n` characters.
pub fn pad_left(s: &str, n: usize) -> (r: String)
    ensures
        r@ == pad_left_spec(s@, n as nat),
{
    let cs = chars_of(s);
    let l = cs.len();
    let k: usize = if l < n { n - l } else { 0 };
    let mut out = spaces(k);
    push_all(&mut out, &cs);
    string_of(&out)
}

/// Whether `pat` occurs in `s` starting at `i`.
pub open spec fn occurs_at(s: Seq<char>, pat: Seq<char>, i: int) -> bool {
    0 <= i && i + pat.len() <= s.len() && s.subrange(i, i + pat.len()) == pat
}

/// Whether `pat` occurs anywhere in `s`.
pub open spec fn has_infix(s: Seq<char>, pat: Seq<char>) -> bool {
    exists|i: int| occurs_at(s, pat, i)
}

fn matches_at(s: &Vec<char>, pat: &Vec<char>, i: usize) -> (r: bool)
    requires
        i + pat@.len() <= s@.len(),
    ensures
        r == occurs_at(s@, pat@, i as int),
{
    let mut j: usize = 0;
    while j < pat.len()
        invariant
            j <= pat.len(),
            i + pat.len() <= s.len(),
            forall|k: int| 0 <= k < j ==> s@[i + k] == pat@[k],
        decreases pat.len() - j,
    {
        if s[i + j] != pat[j] {
            assert(s@.subrange(i as int, i + pat@.len())[j as int] != pat@[j as int]);
            return false;
        }
        j += 1;
    }
    assert(s@.subrange(i as int, i + pat@.len()) =~= pat@);
    true
}

/// Whether `pat` occurs in `s`.
pub fn contains_text(s: &str, pat: &str) -> (r: bool)
    ensures
        r == has_infix(s@, pat@),
{
    let cs = chars_of(s);
    let ps = chars_of(pat);
    if ps.len() > cs.len() {
        assert forall|i: int| !occurs_at(s@, pat@, i) by {}
        return false;
    }
    if ps.len() == 0 {
        assert(s@.subrange(0, 0) =~= pat@);
        assert(occurs_at(s@, pat@, 0));
        return true;
    }
    let mut i: usize = 0;
    let last = cs.len() - ps.len();
    while i <= last
        invariant
            ps@.len() <= cs@.len(),
            last == cs@.len() - ps@.len(),
            last < cs.len(),
            i <= last + 1,
            cs@ == s@,
            ps@ == pat@,
            forall|k: int| 0 <= k < i ==> !occurs_at(s@, pat@, k),
        decreases last + 1 - i,
    {
        if matches_at(&cs, &ps, i) {
            return true;
        }
        i += 1;
    }
    assert forall|k: int| !occurs_at(s@, pat@, k) by {
        if 0 <= k < i {
        }
    }
    false
}

/// `s` without its `:` characters.
pub open spec fn drop_colons(s: Seq<char>) -> Seq<char>
    decreases s.len(),
{
    if s.len() == 0 {
        Seq::empty()
    } else if s.last() == ':' {
        drop_colons(s.drop_last())
    } else {
        drop_colons(s.drop_last()).push(s.last())
    }
}

/// Remove every `:` (colon-separated hex to one token).
pub fn strip_colons(s: &str) -> (r: String)
    ensures
        r@ == drop_colons(s@),
{
    let cs = chars_of(s);
    let mut out: Vec<char> = Vec::new();
    let mut i: usize = 0;
    while i < cs.len()
        invariant
            i <= cs@.len(),
            cs@ == s@,
            out@ == drop_colons(cs@.take(i as int)),
        decreases cs.len() - i,
    {
        assert(cs@.take(i + 1).drop_last() =~= cs@.take(i as int));
        if cs[i] != ':' {
            out.push(cs[i]);
        }
        i += 1;
    }
    assert(cs@.take(cs@.len() as int) =~= cs@);
    string_of(&out)
}

/// A line's text without a final `\r`.
pub open spec fn strip_cr(l: Seq<char>) -> Seq<char> {
    if l.len() > 0 && l.last() == '\r' {
        l.drop_last()
    } else {
        l
    }
}

/// Finished lines and the line being read, reading `s` from the start.
pub open spec fn lines_fold(s: Seq<char>) -> (Seq<Seq<char>>, Seq<char>)
    decreases s.len(),
{
    if s.len() == 0 {
        (Seq::empty(), Seq::empty())
    } else {
        let (ls, cur) = lines_fold(s.drop_last());
        if s.last() == '\n' {
            (ls.push(strip_cr(cur)), Seq::empty())
        } else {
            (ls, cur.push(s.last()))
        }
    }
}

/// The lines of `s` as `str::lines` gives them: split at `\n`, a `\r`
/// before the `\n` dropped, no empty line after a final `\n`.
pub open spec fn text_lines(s: Seq<char>) -> Seq<Seq<char>> {
    let (ls, cur) = lines_fold(s);
    if cur.len() > 0 {
        ls.push(cur)
    } else {
        ls
    }
}

/// The views of character vectors.
pub open spec fn vec_views(v: Seq<Vec<char>>) -> Seq<Seq<char>> {
    v.map_values(|x: Vec<char>| x@)
}

fn without_cr(l: Vec<char>) -> (r: Vec<char>)
    ensures
        r@ == strip_cr(l@),
{
    let mut l = l;
    if l.len() > 0 && l[l.len() - 1] == '\r' {
        l.pop();
    }
    l
}

/// Split `s` into its lines.
pub fn split_lines(s: &str) -> (r: Vec<Vec<char>>)
    ensures
        vec_views(r@) == text_lines(s@),
{
    let cs = chars_of(s);
    let mut out: Vec<Vec<char>> = Vec::new();
    let mut cur: Vec<char> = Vec::new();
    let mut i: usize = 0;
    assert(vec_views(out@) =~= Seq::<Seq<char>>::empty());
    while i < cs.len()
        invariant
            i <= cs@.len(),
            cs@ == s@,
            (vec_views(out@), cur@) == lines_fold(cs@.take(i as int)),
        decreases cs.len() - i,
    {
        assert(cs@.take(i + 1).drop_last() =~= cs@.take(i as int));
        let ghost before = vec_views(out@);
        if cs[i] == '\n' {
            let done = without_cr(cur);
            out.push(done);
            assert(vec_views(out@) =~= before.push(done@));
            cur = Vec::new();
            assert(cur@ =~= Seq::<char>::empty());
        } else {
            cur.push(cs[i]);
            assert(vec_views(out@) =~= before);
        }
        i += 1;
    }
    assert(cs@.take(cs@.len() as int) =~= cs@);
    if cur.len() > 0 {
        let ghost before = vec_views(out@);
        out.push(cur);
        assert(vec_views(out@) =~= before.push(cur@));
    }
    out
}

/// The first position of `": "` in `l`, searching from `i`.
pub open spec fn colon_space_from(l: Seq<char>, i: int) -> Option<int>
    decreases l.len() - i,
{
    if i < 0 || i + 1 >= l.len() {
        None
    } else if l[i] == ':' && l[i + 1] == ' ' {
        Some(i)
    } else {
        colon_space_from(l, i + 1)
    }
}

/// `l` split at its first `": "` into key and value; the whole line and
/// an empty value when there is none.
pub open spec fn split_kv_spec(l: Seq<char>) -> (Seq<char>, Seq<char>) {
    match colon_space_from(l, 0) {
        Some(i) => (l.take(i), l.skip(i + 2)),
        None => (l, Seq::empty()),
    }
}

/// Split a `key: value` line.
pub fn split_kv(l: &Vec<char>) -> (r: (String, String))
    ensures
        (r.0@, r.1@) == split_kv_spec(l@),
{
    let mut i: usize = 0;
    while l.len() > 0 && i < l.len() - 1
        invariant
            colon_space_from(l@, 0) == colon_space_from(l@, i as int),
        decreases l.len() - i,
    {
        if l[i] == ':' && l[i + 1] == ' ' {
            let mut k: Vec<char> = Vec::new();
            let mut v: Vec<char> = Vec::new();
            let mut j: usize = 0;
            while j < i
                invariant
                    j <= i,
                    i + 1 < l@.len(),
                    k@ == l@.take(j as int),
                decreases i - j,
            {
                k.push(l[j]);
                j += 1;
                assert(k@ =~= l@.take(j as int));
            }
            let mut j: usize = i + 2;
            assert(v@ =~= l@.subrange(i + 2, j as int));
            while j < l.len()
                invariant
                    i + 2 <= j <= l@.len(),
                    v@ == l@.subrange(i + 2, j as int),
                decreases l.len() - j,
            {
                v.push(l[j]);
                j += 1;
                assert(v@ =~= l@.subrange(i + 2, j as int));
            }
            assert(v@ =~= l@.skip(i + 2));
            return (string_of(&k), string_of(&v));
        }
        i += 1;
    }
    (string_of(l), string_of(&Vec::new()))
}

} // verus!
