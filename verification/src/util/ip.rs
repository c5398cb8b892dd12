//! Recognising IP address literals (the text forms that `IpAddr` accepts):
//! dotted-quad IPv4 and colon-separated IPv6, with `::` compression and an
//! optional trailing IPv4 part.

use crate::util::text::chars_of;
use vstd::prelude::*;

verus! {

/// An ASCII decimal digit.
pub open spec fn is_dec_digit(c: char) -> bool {
    '0' <= c && c <= '9'
}

/// An ASCII hexadecimal digit, either case.
pub open spec fn is_hex_char(c: char) -> bool {
    is_dec_digit(c) || ('a' <= c && c <= 'f') || ('A' <= c && c <= 'F')
}

/// Value of a run of decimal digits.
pub open spec fn dec_value(s: Seq<char>) -> nat
    decreases s.len(),
{
    if s.len() == 0 {
        0
    } else {
        dec_value(s.drop_last()) * 10 + ((s.last() as u32) - ('0' as u32)) as nat
    }
}

/// One IPv4 octet: one to three digits, no leading zero, at most 255.
pub open spec fn dec_octet(s: Seq<char>) -> bool {
    &&& 1 <= s.len() <= 3
    &&& forall|i: int| 0 <= i < s.len() ==> is_dec_digit(#[trigger] s[i])
    &&& (s.len() == 1 || s[0] != '0')
    &&& dec_value(s) <= 255
}

/// One IPv6 group: one to four hexadecimal digits.
pub open spec fn h16(s: Seq<char>) -> bool {
    &&& 1 <= s.len() <= 4
    &&& forall|i: int| 0 <= i < s.len() ==> is_hex_char(#[trigger] s[i])
}

/// The fields of `s` between occurrences of `sep` (one more than the
/// number of separators).
pub open spec fn split_on(s: Seq<char>, sep: char) -> Seq<Seq<char>>
    decreases s.len(),
{
    if s.len() == 0 {
        seq![Seq::empty()]
    } else {
        let init = split_on(s.drop_last(), sep);
        if s.last() == sep {
            init.push(Seq::empty())
        } else {
            init.update(init.len() - 1, init.last().push(s.last()))
        }
    }
}

/// Dotted-quad IPv4 text.
pub open spec fn ipv4_text(s: Seq<char>) -> bool {
    let f = split_on(s, '.');
    f.len() == 4 && forall|i: int| 0 <= i < 4 ==> dec_octet(#[trigger] f[i])
}

/// Every field is an IPv6 group.
pub open spec fn all_h16(f: Seq<Seq<char>>) -> bool {
    forall|i: int| 0 <= i < f.len() ==> h16(#[trigger] f[i])
}

/// `::` starts at `i`.
pub open spec fn double_colon_at(s: Seq<char>, i: int) -> bool {
    0 <= i && i + 1 < s.len() && s[i] == ':' && s[i + 1] == ':'
}

/// `::` starts at `i` and nowhere before.
pub open spec fn first_double_colon(s: Seq<char>, i: int) -> bool {
    double_colon_at(s, i) && forall|j: int| 0 <= j < i ==> !double_colon_at(s, j)
}

/// The groups of one side of `::` (none for an empty side).
pub open spec fn side_fields(s: Seq<char>) -> Seq<Seq<char>> {
    if s.len() == 0 {
        Seq::empty()
    } else {
        split_on(s, ':')
    }
}

/// The part after `::`: groups, the last of which may be an IPv4 part.
pub open spec fn tail_ok(t: Seq<Seq<char>>) -> bool {
    t.len() == 0 || (all_h16(t.drop_last()) && (h16(t.last()) || ipv4_text(t.last())))
}

/// How many 16-bit groups the part after `::` fills (an IPv4 part fills
/// two).
pub open spec fn tail_groups(t: Seq<Seq<char>>) -> nat {
    if t.len() == 0 {
        0
    } else if h16(t.last()) {
        t.len()
    } else {
        t.len() + 1
    }
}

/// IPv6 text: eight groups (or six and an IPv4 part), or groups on both
/// sides of one `::` that fill at most seven.
pub open spec fn ipv6_text(s: Seq<char>) -> bool {
    if exists|i: int| first_double_colon(s, i) {
        let i = choose|i: int| first_double_colon(s, i);
        let head = side_fields(s.take(i));
        let tail = side_fields(s.skip(i + 2));
        all_h16(head) && tail_ok(tail) && head.len() + tail_groups(tail) <= 7
    } else {
        let f = split_on(s, ':');
        (f.len() == 8 && all_h16(f)) || (f.len() == 7 && all_h16(f.take(6)) && ipv4_text(f[6]))
    }
}

/// An IPv4 or IPv6 address literal.
pub open spec fn ip_literal(s: Seq<char>) -> bool {
    ipv4_text(s) || ipv6_text(s)
}

/// The views of a list of character vectors.
pub open spec fn field_views(v: Seq<Vec<char>>) -> Seq<Seq<char>> {
    v.map_values(|f: Vec<char>| f@)
}

fn split_chars(s: &Vec<char>, sep: char) -> (res: Vec<Vec<char>>)
    ensures
        field_views(res@) == split_on(s@, sep),
        res@.len() >= 1,
{
    let mut out: Vec<Vec<char>> = Vec::new();
    let mut cur: Vec<char> = Vec::new();
    let mut i: usize = 0;
    assert(s@.take(0) =~= Seq::<char>::empty());
    while i < s.len()
        invariant
            i <= s@.len(),
            field_views(out@).push(cur@) == split_on(s@.take(i as int), sep),
        decreases s.len() - i,
    {
        let ghost before = field_views(out@).push(cur@);
        assert(s@.take(i + 1).drop_last() =~= s@.take(i as int));
        assert(s@.take(i + 1).last() == s@[i as int]);
        if s[i] == sep {
            out.push(cur);
            cur = Vec::new();
            assert(field_views(out@).push(cur@) =~= before.push(Seq::empty()));
        } else {
            cur.push(s[i]);
            assert(field_views(out@).push(cur@) =~= before.update(before.len() - 1, before.last().push(
                s@[i as int],
            )));
        }
        i += 1;
    }
    assert(s@.take(s@.len() as int) =~= s@);
    out.push(cur);
    out
}

fn is_h16(f: &Vec<char>) -> (r: bool)
    ensures
        r == h16(f@),
{
    if f.len() < 1 || f.len() > 4 {
        return false;
    }
    let mut i: usize = 0;
    while i < f.len()
        invariant
            i <= f@.len(),
            forall|j: int| 0 <= j < i ==> is_hex_char(#[trigger] f@[j]),
        decreases f.len() - i,
    {
        let c = f[i];
        if !(('0' <= c && c <= '9') || ('a' <= c && c <= 'f') || ('A' <= c && c <= 'F')) {
            return false;
        }
        i += 1;
    }
    true
}

fn is_dec_octet(f: &Vec<char>) -> (r: bool)
    ensures
        r == dec_octet(f@),
{
    if f.len() < 1 || f.len() > 3 {
        return false;
    }
    let mut v: u32 = 0;
    let mut i: usize = 0;
    assert(f@.take(0) =~= Seq::<char>::empty());
    while i < f.len()
        invariant
            i <= f@.len() <= 3,
            forall|j: int| 0 <= j < i ==> is_dec_digit(#[trigger] f@[j]),
            v == dec_value(f@.take(i as int)),
            i == 0 ==> v == 0,
            i == 1 ==> v <= 9,
            i == 2 ==> v <= 99,
            v <= 999,
        decreases f.len() - i,
    {
        let c = f[i];
        if !('0' <= c && c <= '9') {
            return false;
        }
        assert(f@.take(i + 1).drop_last() =~= f@.take(i as int));
        v = v * 10 + ((c as u32) - ('0' as u32));
        i += 1;
    }
    assert(f@.take(f@.len() as int) =~= f@);
    (f.len() == 1 || f[0] != '0') && v <= 255
}

fn all_fields_h16(fs: &Vec<Vec<char>>, from: usize, to: usize) -> (r: bool)
    requires
        from <= to <= fs@.len(),
    ensures
        r == all_h16(field_views(fs@).subrange(from as int, to as int)),
{
    let mut i: usize = from;
    while i < to
        invariant
            from <= i <= to <= fs@.len(),
            forall|j: int| from <= j < i ==> h16(#[trigger] field_views(fs@)[j]),
        decreases to - i,
    {
        if !is_h16(&fs[i]) {
            assert(field_views(fs@).subrange(from as int, to as int)[i - from] == fs@[i as int]@);
            return false;
        }
        i += 1;
    }
    assert forall|j: int| 0 <= j < to - from implies h16(
        #[trigger] field_views(fs@).subrange(from as int, to as int)[j],
    ) by {
        assert(field_views(fs@).subrange(from as int, to as int)[j] == field_views(fs@)[from + j]);
    }
    true
}

fn is_ipv4_chars(s: &Vec<char>) -> (r: bool)
    ensures
        r == ipv4_text(s@),
{
    let f = split_chars(s, '.');
    if f.len() != 4 {
        return false;
    }
    let mut i: usize = 0;
    while i < 4
        invariant
            i <= 4,
            f@.len() == 4,
            field_views(f@) == split_on(s@, '.'),
            forall|j: int| 0 <= j < i ==> dec_octet(#[trigger] split_on(s@, '.')[j]),
        decreases 4 - i,
    {
        assert(field_views(f@)[i as int] == f@[i as int]@);
        if !is_dec_octet(&f[i]) {
            return false;
        }
        i += 1;
    }
    true
}

/// Whether the side fields (all of `fs`) are a valid part after `::`, and
/// whether the last of them is an IPv4 part.
fn tail_check(fs: &Vec<Vec<char>>) -> (r: (bool, bool))
    ensures
        r.0 == tail_ok(field_views(fs@)),
        r.0 ==> tail_groups(field_views(fs@)) == fs@.len() + (if r.1 { 1int } else { 0int }),
{
    let n = fs.len();
    if n == 0 {
        return (true, false);
    }
    let ghost t = field_views(fs@);
    assert(t.drop_last() =~= t.subrange(0, n - 1));
    assert(t.last() == fs@[n - 1]@);
    if !all_fields_h16(fs, 0, n - 1) {
        return (false, false);
    }
    if is_h16(&fs[n - 1]) {
        (true, false)
    } else if is_ipv4_chars(&fs[n - 1]) {
        (true, true)
    } else {
        (false, false)
    }
}

fn find_double_colon(s: &Vec<char>) -> (r: Option<usize>)
    ensures
        match r {
            Some(i) => first_double_colon(s@, i as int),
            None => forall|k: int| !double_colon_at(s@, k),
        },
{
    let mut i: usize = 0;
    while i < s.len() && i + 1 < s.len()
        invariant
            i <= s@.len(),
            forall|j: int| 0 <= j < i ==> !double_colon_at(s@, j),
        decreases s.len() - i,
    {
        if s[i] == ':' && s[i + 1] == ':' {
            return Some(i);
        }
        i += 1;
    }
    None
}

fn side_split(s: &Vec<char>) -> (res: Vec<Vec<char>>)
    ensures
        field_views(res@) == side_fields(s@),
{
    if s.len() == 0 {
        let v: Vec<Vec<char>> = Vec::new();
        assert(field_views(v@) =~= Seq::<Seq<char>>::empty());
        v
    } else {
        split_chars(s, ':')
    }
}

fn slice_chars(s: &Vec<char>, from: usize, to: usize) -> (res: Vec<char>)
    requires
        from <= to <= s@.len(),
    ensures
        res@ == s@.subrange(from as int, to as int),
{
    let mut out: Vec<char> = Vec::new();
    let mut i: usize = from;
    while i < to
        invariant
            from <= i <= to <= s@.len(),
            out@ == s@.subrange(from as int, i as int),
        decreases to - i,
    {
        out.push(s[i]);
        i += 1;
        assert(out@ =~= s@.subrange(from as int, i as int));
    }
    out
}

fn is_ipv6_chars(s: &Vec<char>) -> (r: bool)
    ensures
        r == ipv6_text(s@),
{
    match find_double_colon(s) {
        Some(i) => {
            proof {
                let k = choose|k: int| first_double_colon(s@, k);
                if k < i {
                    assert(!double_colon_at(s@, k));
                } else if k > i {
                    assert(!double_colon_at(s@, i as int));
                }
                assert(k == i);
            }
            let n = s.len();
            assert(double_colon_at(s@, i as int));
            assert(i + 1 < n);
            let head_chars = slice_chars(s, 0, i);
            let tail_chars = slice_chars(s, i + 2, n);
            assert(head_chars@ =~= s@.take(i as int));
            assert(tail_chars@ =~= s@.skip(i + 2));
            let head = side_split(&head_chars);
            let tail = side_split(&tail_chars);
            assert(field_views(head@).subrange(0, head@.len() as int) =~= field_views(head@));
            let head_ok = all_fields_h16(&head, 0, head.len());
            let (tail_good, v4_last) = tail_check(&tail);
            let extra: usize = if v4_last { 1 } else { 0 };
            head_ok && tail_good && head.len() <= 7 && tail.len() <= 7 && tail.len() + extra <= 7
                - head.len()
        },
        None => {
            assert(!exists|k: int| first_double_colon(s@, k));
            let f = split_chars(s, ':');
            if f.len() == 8 {
                assert(field_views(f@).subrange(0, 8) =~= field_views(f@));
                all_fields_h16(&f, 0, 8)
            } else if f.len() == 7 {
                assert(field_views(f@).subrange(0, 6) =~= field_views(f@).take(6));
                assert(field_views(f@)[6] == f@[6]@);
                all_fields_h16(&f, 0, 6) && is_ipv4_chars(&f[6])
            } else {
                false
            }
        },
    }
}

/// Whether `s` is an IPv4 or IPv6 address literal.
pub fn is_ip_literal(s: &str) -> (r: bool)
    ensures
        r == ip_literal(s@),
{
    let cs = chars_of(s);
    is_ipv4_chars(&cs) || is_ipv6_chars(&cs)
}

} // verus!
