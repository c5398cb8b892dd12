//! What a terminal shows of styled text: the characters left once SGR
//! escapes (from `ESC` up to the next `m`) are dropped. Coloring a report
//! changes none of them.

use crate::ui::pal;
use crate::ui::panel::{
    flat, lemma_text_line, lemma_value_lines_len, lemma_wrap_keeps_text, panel_header, panel_lines, repeat,
    row_lines, rows_lines, sat_sub, solid, text_line, tone_rgb, value_lines, wrap_spec, PanelV, RowV, Tone,
    lemma_panel_within_width, lines_within, row_fits,
};
use crate::util::text::is_space;
use crate::ui::theme::{bold_text, dim_text, gradient_span, line_text, paint_text, sgr, span_text, Rgb, SpanV};
use crate::util::text::{dec, digit};
use vstd::prelude::*;

verus! {

/// Whether `s` holds no escape character.
pub open spec fn no_esc(s: Seq<char>) -> bool {
    forall|i: int| 0 <= i < s.len() ==> s[i] != '\x1b'
}

/// The shown characters of `s` and whether it ends inside an escape.
pub open spec fn strip_state(s: Seq<char>) -> (Seq<char>, bool)
    decreases s.len(),
{
    if s.len() == 0 {
        (Seq::empty(), false)
    } else {
        let (out, esc) = strip_state(s.drop_last());
        let c = s.last();
        if esc {
            (out, c != 'm')
        } else if c == '\x1b' {
            (out, true)
        } else {
            (out.push(c), false)
        }
    }
}

/// The characters a terminal shows of `s`.
pub open spec fn shown(s: Seq<char>) -> Seq<char> {
    strip_state(s).0
}

proof fn lemma_strip_add(x: Seq<char>, y: Seq<char>)
    requires
        !strip_state(x).1,
    ensures
        strip_state(x + y) == (strip_state(x).0 + strip_state(y).0, strip_state(y).1),
    decreases y.len(),
{
    if y.len() == 0 {
        assert(x + y =~= x);
        assert(strip_state(x).0 + Seq::<char>::empty() =~= strip_state(x).0);
    } else {
        assert((x + y).drop_last() =~= x + y.drop_last());
        lemma_strip_add(x, y.drop_last());
        let (o, e) = strip_state(y.drop_last());
        if !e && y.last() != '\x1b' {
            assert(strip_state(x).0 + o.push(y.last()) =~= (strip_state(x).0 + o).push(y.last()));
        }
    }
}

proof fn lemma_strip_plain(t: Seq<char>)
    requires
        no_esc(t),
    ensures
        strip_state(t) == (t, false),
    decreases t.len(),
{
    if t.len() > 0 {
        assert(no_esc(t.drop_last()));
        lemma_strip_plain(t.drop_last());
        assert(t.drop_last().push(t.last()) =~= t);
    }
}

proof fn lemma_strip_inside(x: Seq<char>, y: Seq<char>)
    requires
        strip_state(x).1,
        forall|i: int| 0 <= i < y.len() ==> y[i] != 'm',
    ensures
        strip_state(x + y) == strip_state(x),
    decreases y.len(),
{
    if y.len() == 0 {
        assert(x + y =~= x);
    } else {
        assert((x + y).drop_last() =~= x + y.drop_last());
        lemma_strip_inside(x, y.drop_last());
    }
}

proof fn lemma_dec_digits(n: nat)
    ensures
        forall|i: int| 0 <= i < dec(n).len() ==> dec(n)[i] != 'm' && dec(n)[i] != '\x1b',
    decreases n,
{
    if n >= 10 {
        lemma_dec_digits(n / 10);
        let d = dec(n);
        assert forall|i: int| 0 <= i < d.len() implies d[i] != 'm' && d[i] != '\x1b' by {
            if i < d.len() - 1 {
                assert(d[i] == dec(n / 10)[i]);
            }
        }
    }
}

proof fn lemma_strip_esc()
    ensures
        strip_state(seq!['\x1b']) == (Seq::<char>::empty(), true),
{
    let open = seq!['\x1b'];
    assert(open.drop_last() =~= Seq::<char>::empty());
    assert(strip_state(Seq::<char>::empty()) == (Seq::<char>::empty(), false));
    assert(open.last() == '\x1b');
}

/// What a styled piece shows: its text, for each style the palette uses.
proof fn lemma_strip_sgr(style: Seq<char>, fg: Rgb, t: Seq<char>)
    requires
        style == ""@ || style == "1;"@ || style == "2;"@,
        no_esc(t),
    ensures
        strip_state(sgr(style, fg, t)) == (t, false),
{
    reveal_strlit("\x1b[");
    reveal_strlit("");
    reveal_strlit("1;");
    reveal_strlit("2;");
    reveal_strlit("38;2;");
    reveal_strlit(";");
    reveal_strlit("m");
    reveal_strlit("\x1b[0m");
    lemma_dec_digits(fg.0 as nat);
    lemma_dec_digits(fg.1 as nat);
    lemma_dec_digits(fg.2 as nat);
    let open = seq!['\x1b'];
    let body = seq!['['] + style + "38;2;"@ + dec(fg.0 as nat) + ";"@ + dec(fg.1 as nat) + ";"@ + dec(
        fg.2 as nat,
    );
    let head = open + body + seq!['m'];
    lemma_strip_esc();
    assert forall|i: int| 0 <= i < body.len() implies body[i] != 'm' by {}
    lemma_strip_inside(open, body);
    assert(strip_state(head) == (Seq::<char>::empty(), false)) by {
        assert(head.drop_last() =~= open + body);
    }
    lemma_strip_plain(t);
    lemma_strip_add(head, t);
    let close = seq!['\x1b', '[', '0', 'm'];
    let tail_open = seq!['\x1b'];

    lemma_strip_inside(tail_open, seq!['[', '0']);
    assert(tail_open + seq!['[', '0'] =~= close.drop_last());
    assert(strip_state(close) == (Seq::<char>::empty(), false));
    assert(strip_state(head + t).1 == false);
    lemma_strip_add(head + t, close);
    assert(sgr(style, fg, t) =~= head + t + close);
    assert(Seq::<char>::empty() + t + Seq::<char>::empty() =~= t);
}

/// `colored` shows exactly `plain`, and leaves no escape open.
pub open spec fn shows_as(colored: Seq<char>, plain: Seq<char>) -> bool {
    strip_state(colored) == (plain, false)
}

proof fn lemma_shows_add(a: Seq<char>, a2: Seq<char>, b: Seq<char>, b2: Seq<char>)
    requires
        shows_as(a, a2),
        shows_as(b, b2),
    ensures
        shows_as(a + b, a2 + b2),
{
    lemma_strip_add(a, b);
}

proof fn lemma_shows_plain(t: Seq<char>)
    requires
        no_esc(t),
    ensures
        shows_as(t, t),
{
    lemma_strip_plain(t);
}

proof fn lemma_shows_styles(color: bool, t: Seq<char>, fg: Rgb)
    requires
        no_esc(t),
    ensures
        shows_as(paint_text(color, t, fg), t),
        shows_as(bold_text(color, t, fg), t),
        shows_as(dim_text(color, t, fg), t),
{
    reveal_strlit("");
    reveal_strlit("1;");
    reveal_strlit("2;");
    lemma_strip_sgr(""@, fg, t);
    lemma_strip_sgr("1;"@, fg, t);
    lemma_strip_sgr("2;"@, fg, t);
    lemma_strip_plain(t);
}

proof fn lemma_in_flat(ls: Seq<Seq<char>>, i: int, j: int)
    requires
        0 <= i < ls.len(),
        0 <= j < ls[i].len(),
    ensures
        flat(ls).contains(ls[i][j]),
    decreases ls.len(),
{
    let p = ls.drop_last();
    assert(flat(ls) == flat(p) + ls.last());
    if i == ls.len() - 1 {
        assert(flat(ls)[flat(p).len() + j] == ls[i][j]);
    } else {
        assert(p[i] == ls[i]);
        lemma_in_flat(p, i, j);
        let k = choose|k: int| 0 <= k < flat(p).len() && flat(p)[k] == ls[i][j];
        assert(flat(ls)[k] == ls[i][j]);
    }
}

proof fn lemma_solid_keeps(t: Seq<char>, c: char)
    requires
        t.contains(c),
        !is_space(c),
    ensures
        solid(t).contains(c),
    decreases t.len(),
{
    let k = choose|k: int| 0 <= k < t.len() && t[k] == c;
    if k == t.len() - 1 {
        assert(solid(t) == solid(t.drop_last()).push(c));
        assert(solid(t)[solid(t).len() - 1] == c);
    } else {
        assert(t.drop_last()[k] == c);
        lemma_solid_keeps(t.drop_last(), c);
        let j = choose|j: int| 0 <= j < solid(t.drop_last()).len() && solid(t.drop_last())[j] == c;
        assert(solid(t)[j] == c);
    }
}

proof fn lemma_solid_from(t: Seq<char>, c: char)
    requires
        solid(t).contains(c),
    ensures
        t.contains(c),
    decreases t.len(),
{
    if t.len() > 0 {
        let j = choose|j: int| 0 <= j < solid(t).len() && solid(t)[j] == c;
        if !is_space(t.last()) && j == solid(t).len() - 1 {
            assert(t[t.len() - 1] == c);
        } else {
            assert(solid(t.drop_last())[j] == c);
            lemma_solid_from(t.drop_last(), c);
            let k = choose|k: int| 0 <= k < t.drop_last().len() && t.drop_last()[k] == c;
            assert(t[k] == c);
        }
    }
}

/// Wrapping text without escapes gives lines without escapes.
proof fn lemma_wrap_no_esc(v: Seq<char>, max: nat)
    requires
        no_esc(v),
    ensures
        forall|i: int| 0 <= i < wrap_spec(v, max).len() ==> no_esc(#[trigger] wrap_spec(v, max)[i]),
{
    let ls = wrap_spec(v, max);
    assert forall|i: int| 0 <= i < ls.len() implies no_esc(#[trigger] ls[i]) by {
        assert forall|j: int| 0 <= j < ls[i].len() implies ls[i][j] != '\x1b' by {
            if ls[i][j] == '\x1b' {
                lemma_in_flat(ls, i, j);
                assert(!is_space('\x1b'));
                lemma_solid_keeps(flat(ls), '\x1b');
                lemma_wrap_keeps_text(v, max);
                lemma_solid_from(v, '\x1b');
            }
        }
    }
}

/// Each colored line shows exactly the plain line at the same place.
pub open spec fn shows_lines(colored: Seq<Seq<char>>, plain: Seq<Seq<char>>) -> bool {
    colored.len() == plain.len() && forall|i: int| 0 <= i < colored.len() ==> shows_as(#[trigger] colored[i], plain[i])
}

proof fn lemma_value_lines_shown(key: Seq<char>, chunks: Seq<Seq<char>>, tone: Tone)
    requires
        no_esc(key),
        forall|i: int| 0 <= i < chunks.len() ==> no_esc(#[trigger] chunks[i]),
    ensures
        shows_lines(value_lines(key, chunks, tone, true), value_lines(key, chunks, tone, false)),
    decreases chunks.len(),
{
    lemma_value_lines_len(key, chunks, tone, true);
    lemma_value_lines_len(key, chunks, tone, false);
    if chunks.len() > 0 {
        let p = chunks.drop_last();
        assert forall|i: int| 0 <= i < p.len() implies no_esc(#[trigger] p[i]) by {
            assert(p[i] == chunks[i]);
        }
        lemma_value_lines_shown(key, p, tone);
        let c = chunks.last();
        assert(no_esc(c)) by {
            assert(c == chunks[chunks.len() - 1]);
        }
        lemma_shows_styles(true, c, tone_rgb(tone));
        lemma_shows_styles(true, key, pal::mist());
        reveal_strlit("    ");
        reveal_strlit(" ");
        let pad = repeat(' ', sat_sub(16, key.len() as int));
        lemma_shows_plain("    "@);
        lemma_shows_plain(pad);
        lemma_shows_plain(" "@);
        lemma_shows_plain(repeat(' ', 21));
        let dk = dim_text(true, key, pal::mist());
        let pc = paint_text(true, c, tone_rgb(tone));
        lemma_shows_add("    "@, "    "@, dk, key);
        lemma_shows_add("    "@ + dk, "    "@ + key, pad, pad);
        lemma_shows_add("    "@ + dk + pad, "    "@ + key + pad, " "@, " "@);
        lemma_shows_add("    "@ + dk + pad + " "@, "    "@ + key + pad + " "@, pc, c);
        lemma_shows_add(repeat(' ', 21), repeat(' ', 21), pc, c);
        let vc = value_lines(key, chunks, tone, true);
        let vp = value_lines(key, chunks, tone, false);
        assert(dim_text(false, key, pal::mist()) == key);
        assert(paint_text(false, c, tone_rgb(tone)) == c);
        assert forall|i: int| 0 <= i < vc.len() implies shows_as(#[trigger] vc[i], vp[i]) by {
            if i < vc.len() - 1 {
                assert(vc[i] == value_lines(key, p, tone, true)[i]);
                assert(vp[i] == value_lines(key, p, tone, false)[i]);
            }
        }
    }
}

/// Whether a row's texts hold no escape character.
pub open spec fn row_plain(r: RowV) -> bool {
    match r {
        RowV::Kv { key, value, note, .. } => no_esc(key) && no_esc(value) && match note {
            Some(n) => no_esc(n),
            None => true,
        },
        RowV::Note(t) => no_esc(t),
    }
}

proof fn lemma_row_shown(r: RowV, width: nat)
    requires
        row_plain(r),
    ensures
        shows_lines(row_lines(r, true, width), row_lines(r, false, width)),
{
    let avail = sat_sub(width as int, 21);
    lemma_shows_plain(repeat(' ', 21));
    match r {
        RowV::Kv { key, value, tone, note } => {
            let chunks = wrap_spec(value, avail);
            lemma_wrap_no_esc(value, avail);
            lemma_value_lines_shown(key, chunks, tone);
            let lc = value_lines(key, chunks, tone, true);
            let lp = value_lines(key, chunks, tone, false);
            match note {
                Some(n) => {
                    lemma_shows_styles(true, n, pal::steel());
                    assert(dim_text(false, n, pal::steel()) == n);
                    let dn = dim_text(true, n, pal::steel());
                    reveal_strlit("  ");
                    lemma_shows_plain("  "@);
                    let fits = chunks.len() > 0 && chunks.last().len() + 2 + n.len() <= avail;
                    if fits {
                        assert(lc.len() > 0);
                        assert(shows_as(lc[lc.len() - 1], lp[lp.len() - 1]));
                        lemma_shows_add(lc.last(), lp.last(), "  "@, "  "@);
                        lemma_shows_add(lc.last() + "  "@, lp.last() + "  "@, dn, n);
                        let oc = lc.update(lc.len() - 1, lc.last() + "  "@ + dn);
                        let op = lp.update(lp.len() - 1, lp.last() + "  "@ + n);
                        assert forall|i: int| 0 <= i < oc.len() implies shows_as(#[trigger] oc[i], op[i]) by {
                            if i < oc.len() - 1 {
                                assert(oc[i] == lc[i]);
                                assert(op[i] == lp[i]);
                            }
                        }
                    } else {
                        lemma_shows_add(repeat(' ', 21), repeat(' ', 21), dn, n);
                        let oc = lc.push(repeat(' ', 21) + dn);
                        let op = lp.push(repeat(' ', 21) + n);
                        assert forall|i: int| 0 <= i < oc.len() implies shows_as(#[trigger] oc[i], op[i]) by {
                            if i < lc.len() {
                                assert(oc[i] == lc[i]);
                                assert(op[i] == lp[i]);
                            }
                        }
                    }
                },
                None => {},
            }
        },
        RowV::Note(t) => {
            let chunks = wrap_spec(t, avail);
            lemma_wrap_no_esc(t, avail);
            let oc = chunks.map_values(|c: Seq<char>| repeat(' ', 21) + dim_text(true, c, pal::mist()));
            let op = chunks.map_values(|c: Seq<char>| repeat(' ', 21) + dim_text(false, c, pal::mist()));
            assert forall|i: int| 0 <= i < oc.len() implies shows_as(#[trigger] oc[i], op[i]) by {
                let c = chunks[i];
                lemma_shows_styles(true, c, pal::mist());
                assert(dim_text(false, c, pal::mist()) == c);
                lemma_shows_add(repeat(' ', 21), repeat(' ', 21), dim_text(true, c, pal::mist()), c);
            }
        },
    }
}

proof fn lemma_rows_shown(rows: Seq<RowV>, width: nat)
    requires
        forall|i: int| 0 <= i < rows.len() ==> row_plain(#[trigger] rows[i]),
    ensures
        rows_lines(rows, true, width).len() == rows_lines(rows, false, width).len(),
        forall|i: int|
            0 <= i < rows_lines(rows, true, width).len() ==> shows_as(
                line_text(#[trigger] rows_lines(rows, true, width)[i]),
                line_text(rows_lines(rows, false, width)[i]),
            ),
    decreases rows.len(),
{
    if rows.len() > 0 {
        let p = rows.drop_last();
        assert forall|i: int| 0 <= i < p.len() implies row_plain(#[trigger] p[i]) by {
            assert(p[i] == rows[i]);
        }
        lemma_rows_shown(p, width);
        assert(row_plain(rows[rows.len() - 1]));
        lemma_row_shown(rows.last(), width);
        let pc = rows_lines(p, true, width);
        let pp = rows_lines(p, false, width);
        let rc = row_lines(rows.last(), true, width);
        let rp = row_lines(rows.last(), false, width);
        let all_c = rows_lines(rows, true, width);
        let all_p = rows_lines(rows, false, width);
        assert forall|i: int| 0 <= i < all_c.len() implies shows_as(
            line_text(#[trigger] all_c[i]),
            line_text(all_p[i]),
        ) by {
            if i < pc.len() {
                assert(all_c[i] == pc[i]);
                assert(all_p[i] == pp[i]);
            } else {
                let j = i - pc.len();
                assert(all_c[i] == text_line(rc[j]));
                assert(all_p[i] == text_line(rp[j]));
                lemma_text_line(rc[j]);
                lemma_text_line(rp[j]);
            }
        }
    }
}

proof fn lemma_line_text2(a: SpanV, b: SpanV)
    ensures
        line_text(seq![a, b]) == span_text(a) + span_text(b),
{
    let l = seq![a, b];
    assert(l.drop_last() =~= seq![a]);
    assert(l.last() == b);
    assert(seq![a].drop_last() =~= Seq::<SpanV>::empty());
    assert(seq![a].last() == a);
    assert(line_text(Seq::<SpanV>::empty()) == Seq::<char>::empty());
    assert(line_text(seq![a]) == line_text(Seq::<SpanV>::empty()) + span_text(a));
    assert(Seq::<char>::empty() + span_text(a) =~= span_text(a));
    assert(line_text(l) == line_text(seq![a]) + span_text(b));
}

/// Whether a section's texts hold no escape character.
pub open spec fn panel_plain(p: PanelV) -> bool {
    no_esc(p.title) && forall|i: int| 0 <= i < p.rows.len() ==> row_plain(#[trigger] p.rows[i])
}

/// Coloring a section changes nothing a terminal shows: line for line, the
/// colored layout, its escapes dropped, is the plain layout (so both have
/// the same visible width), when the section's texts hold no escapes.
pub proof fn lemma_color_shows_plain_text(p: PanelV, width: nat)
    requires
        panel_plain(p),
    ensures
        panel_lines(p, true, width).len() == panel_lines(p, false, width).len(),
        forall|i: int|
            0 <= i < panel_lines(p, true, width).len() ==> shown(line_text(#[trigger] panel_lines(p, true, width)[i]))
                == line_text(panel_lines(p, false, width)[i]),
{
    if p.rows.len() > 0 {
        lemma_rows_shown(p.rows, width);
        let hc = panel_header(p.title, p.accent, true, width);
        let hp = panel_header(p.title, p.accent, false, width);
        let rule_len = sat_sub(width as int, (2 + p.title.len() + 1) as int);
        reveal_strlit("  ");
        reveal_strlit(" ");
        lemma_shows_plain("  "@);
        lemma_shows_plain(" "@);
        lemma_shows_styles(true, p.title, p.accent);
        assert(bold_text(false, p.title, p.accent) == p.title);
        let bt = bold_text(true, p.title, p.accent);
        lemma_shows_add("  "@, "  "@, bt, p.title);
        if rule_len == 0 {
            lemma_text_line("  "@ + bt);
            lemma_text_line("  "@ + p.title);
            assert(shows_as(line_text(hc), line_text(hp)));
        } else {
            let rule = repeat('─', rule_len);
            lemma_shows_plain(rule);
            lemma_shows_add("  "@ + bt, "  "@ + p.title, " "@, " "@);
            lemma_shows_add("  "@ + bt + " "@, "  "@ + p.title + " "@, rule, rule);
            lemma_line_text2(SpanV::Text("  "@ + bt + " "@), gradient_span(true, rule, p.accent, pal::void()));
            lemma_line_text2(SpanV::Text("  "@ + p.title + " "@), gradient_span(false, rule, p.accent, pal::void()));
            assert(shows_as(line_text(hc), line_text(hp)));
        }
        let lc = panel_lines(p, true, width);
        let lp = panel_lines(p, false, width);
        let rc = rows_lines(p.rows, true, width);
        let rp = rows_lines(p.rows, false, width);
        assert forall|i: int| 0 <= i < lc.len() implies shown(line_text(#[trigger] lc[i])) == line_text(lp[i]) by {
            if i == 0 {
                assert(lc[0] == hc);
                assert(lp[0] == hp);
            } else {
                assert(lc[i] == rc[i - 1]);
                assert(lp[i] == rp[i - 1]);
            }
        }
    }
}

/// What a rendered section promises, for every section whose title fits
/// beside its rule, whose keys fit their column and whose notes fit the
/// value column, at a width that leaves room for values: no rows give no
/// lines; otherwise the first line starts with the title; every plain
/// line is at most `width` characters; the colored lines, escapes
/// dropped, are the plain lines (so they are as wide); and every value
/// and note is wrapped into the value column without losing a
/// non-space character.
pub proof fn lemma_panel_render_laws(p: PanelV, width: nat)
    requires
        width > 21,
        p.title.len() + 3 <= width,
        forall|i: int| 0 <= i < p.rows.len() ==> row_fits(#[trigger] p.rows[i], width),
        panel_plain(p),
    ensures
        p.rows.len() == 0 ==> panel_lines(p, true, width).len() == 0 && panel_lines(p, false, width).len() == 0,
        p.rows.len() > 0 ==> line_text(panel_lines(p, false, width)[0]).take(2 + p.title.len() as int) == "  "@
            + p.title,
        lines_within(panel_lines(p, false, width), width),
        panel_lines(p, true, width).len() == panel_lines(p, false, width).len(),
        forall|i: int|
            0 <= i < panel_lines(p, true, width).len() ==> shown(line_text(#[trigger] panel_lines(p, true, width)[i]))
                == line_text(panel_lines(p, false, width)[i]),
        forall|i: int|
            0 <= i < p.rows.len() ==> match #[trigger] p.rows[i] {
                RowV::Kv { value, .. } => solid(flat(wrap_spec(value, sat_sub(width as int, 21)))) == solid(value),
                RowV::Note(t) => solid(flat(wrap_spec(t, sat_sub(width as int, 21)))) == solid(t),
            },
{
    lemma_panel_within_width(p, width);
    lemma_color_shows_plain_text(p, width);
    assert forall|i: int| 0 <= i < p.rows.len() implies match #[trigger] p.rows[i] {
        RowV::Kv { value, .. } => solid(flat(wrap_spec(value, sat_sub(width as int, 21)))) == solid(value),
        RowV::Note(t) => solid(flat(wrap_spec(t, sat_sub(width as int, 21)))) == solid(t),
    } by {
        match p.rows[i] {
            RowV::Kv { value, .. } => lemma_wrap_keeps_text(value, sat_sub(width as int, 21)),
            RowV::Note(t) => lemma_wrap_keeps_text(t, sat_sub(width as int, 21)),
        }
    }
    if p.rows.len() > 0 {
        let rule_len = sat_sub(width as int, (2 + p.title.len() + 1) as int);
        let h = panel_header(p.title, p.accent, false, width);
        reveal_strlit("  ");
        reveal_strlit(" ");
        assert(bold_text(false, p.title, p.accent) == p.title);
        assert(panel_lines(p, false, width)[0] == h);
        if rule_len == 0 {
            lemma_text_line("  "@ + p.title);
            assert(line_text(h) == "  "@ + p.title);
            assert(line_text(h).take(2 + p.title.len() as int) =~= "  "@ + p.title);
        } else {
            let t0 = "  "@ + p.title + " "@;
            assert(line_text(h) == t0 + span_text(h[1])) by {
                let one = seq![SpanV::Text(t0)];
                assert(h.len() == 2);
                assert(h.drop_last() =~= one);
                assert(h.last() == h[1]);
                assert(one.drop_last() =~= Seq::<SpanV>::empty());
                assert(line_text(Seq::<SpanV>::empty()) == Seq::<char>::empty());
                assert(line_text(one) == line_text(one.drop_last()) + span_text(one.last()));
                assert(Seq::<char>::empty() + t0 =~= t0);
                assert(line_text(one) == t0);
                assert(line_text(h) == line_text(h.drop_last()) + span_text(h.last()));
            }
            assert(line_text(h).take(2 + p.title.len() as int) =~= "  "@ + p.title);
        }
    }
}

} // verus!
