//! The capture report: a summary, then the clients ranked in a table with
//! a bar scaled to the busiest client.

use crate::fp::lookup::same_text;
use crate::output::human::cells::{pad_left, pad_left_spec, pad_right, pad_right_spec};
use crate::output::human::live::{blank, kv, section};
use crate::output::model::{ClientEntry, PcapReport, UNCLASSIFIED};
use crate::ui::glyph;
use crate::ui::pal;
use crate::ui::panel::{
    footer, footer_text, header, header_line, one_span, panel_lines, repeat, sat_sub, text_line, truncate,
    truncate_spec, Panel, Row, Tone,
};
use crate::ui::theme::{dim_text, gradient_span, line_view, lines_view, bold_text, paint_text, Line, Palette, Rgb, Span, SpanV};
use crate::util::text::{chars_of, dec, dec_chars, push_all, push_str, string_of};
use vstd::prelude::*;

verus! {

/// Cells of a bar.
pub const BAR_CELLS: usize = 10;

/// The largest handshake count of `cs`, and at least 1.
pub open spec fn max_count(cs: Seq<ClientEntry>) -> nat
    decreases cs.len(),
{
    if cs.len() == 0 {
        1
    } else {
        let m = max_count(cs.drop_last());
        if cs.last().count > m {
            cs.last().count as nat
        } else {
            m
        }
    }
}

proof fn lemma_max_count(cs: Seq<ClientEntry>)
    ensures
        max_count(cs) >= 1,
        forall|i: int| 0 <= i < cs.len() ==> #[trigger] cs[i].count <= max_count(cs),
        max_count(cs) == 1 || exists|i: int| 0 <= i < cs.len() && #[trigger] cs[i].count == max_count(cs),
    decreases cs.len(),
{
    if cs.len() > 0 {
        lemma_max_count(cs.drop_last());
        assert forall|i: int| 0 <= i < cs.len() implies #[trigger] cs[i].count <= max_count(cs) by {
            if i < cs.len() - 1 {
                assert(cs[i] == cs.drop_last()[i]);
            }
        }
        if max_count(cs) != 1 && max_count(cs) != cs.last().count {
            let j = choose|j: int| 0 <= j < cs.drop_last().len() && #[trigger] cs.drop_last()[j].count == max_count(
                cs.drop_last(),
            );
            assert(cs[j] == cs.drop_last()[j]);
        }
    }
}

/// Filled cells of a client's bar: its share of the busiest count, at
/// least one.
pub open spec fn filled_cells(count: nat, max: nat) -> nat {
    let f = (count * 10) / max;
    if f < 1 {
        1
    } else {
        f
    }
}

/// The client name a row shows: `—` when no lookup was asked for.
pub open spec fn client_shown(c: ClientEntry) -> Seq<char> {
    match c.client {
        Some(n) => n@,
        None => "—"@,
    }
}

/// The color of a row's client name: lime for a known client.
pub open spec fn client_color(c: ClientEntry) -> Rgb {
    match c.client {
        Some(n) => if n@ != UNCLASSIFIED@ {
            pal::lime()
        } else {
            pal::mist()
        },
        None => pal::mist(),
    }
}

/// Row `i` of the table (rank `i + 1`): rank, source, JA4, client, the
/// bar (its filled part a gradient) and the count.
pub open spec fn client_line(i: nat, c: ClientEntry, max: nat, color: bool) -> Seq<SpanV> {
    let filled = filled_cells(c.count as nat, max);
    seq![
        SpanV::Text(
            "  "@ + dim_text(color, pad_left_spec(dec(i + 1), 2), pal::steel()) + "  "@ + pad_right_spec(
                paint_text(color, truncate_spec(c.ip@, 15), pal::chrome()),
                15,
            ) + " "@ + paint_text(color, pad_right_spec(truncate_spec(c.ja4@, 38), 38), pal::magenta()) + " "@
                + pad_right_spec(paint_text(color, truncate_spec(client_shown(c), 14), client_color(c)), 14) + " "@,
        ),
        gradient_span(color, repeat('▰', filled), pal::magenta(), pal::cyan()),
        SpanV::Text(
            dim_text(color, repeat('▱', sat_sub(10, filled as int)), pal::void()) + " "@ + dim_text(
                color,
                pad_left_spec(dec(c.count as nat), 4),
                pal::mist(),
            ),
        ),
    ]
}

/// The table's column titles.
pub open spec fn column_titles(color: bool) -> Seq<char> {
    "  "@ + dim_text(color, "  "@, pal::steel()) + "  "@ + pad_right_spec(dim_text(color, "source"@, pal::mist()), 15)
        + " "@ + pad_right_spec(dim_text(color, "ja4"@, pal::mist()), 38) + " "@ + pad_right_spec(
        dim_text(color, "client"@, pal::mist()),
        14,
    ) + " "@ + dim_text(color, "seen"@, pal::mist())
}

/// The rule under the column titles.
pub open spec fn table_rule(color: bool, width: nat) -> Seq<SpanV> {
    seq![SpanV::Text("  "@), gradient_span(color, repeat('─', sat_sub(width as int, 2)), pal::steel(), pal::void())]
}

/// What an empty capture says.
pub open spec fn no_clients_lines(color: bool) -> Seq<Seq<SpanV>> {
    seq![
        text_line(
            "  "@ + bold_text(color, glyph::WARN@, pal::amber()) + " "@ + paint_text(
                color,
                "no client hellos recovered from this capture"@,
                pal::mist(),
            ),
        ),
        text_line("  "@ + dim_text(color, "the capture may hold no tls, or streams may be truncated"@, pal::steel())),
    ]
}

/// The capture report, line by line: the header, the summary, then either
/// guidance for an empty capture, or the ranked table and a footer
/// counting the fingerprints.
pub open spec fn pcap_lines(r: PcapReport, color: bool, width: nat) -> Seq<Seq<SpanV>> {
    let cs = r.clients@;
    let head = seq![header_line(r.file@, "pcap analysis"@, color, width)] + blank() + panel_lines(
        section(
            "summary"@,
            pal::cyan(),
            seq![
                kv("clients"@, dec(r.unique_clients as nat), Tone::Key),
                kv("handshakes"@, dec(r.total_handshakes as nat), Tone::Plain),
            ],
        ),
        color,
        width,
    );
    if cs.len() == 0 {
        head + blank() + no_clients_lines(color)
    } else {
        head + blank() + seq![text_line(column_titles(color)), table_rule(color, width)] + Seq::new(
            cs.len(),
            |i: int| client_line(i as nat, cs[i], max_count(cs), color),
        ) + blank() + seq![
            text_line(footer_text(0, dec(r.unique_clients as nat) + " unique fingerprints"@, color)),
        ]
    }
}

fn repeat_char(c: char, n: usize) -> (r: Vec<char>)
    ensures
        r@ == repeat(c, n as nat),
{
    let mut v: Vec<char> = Vec::new();
    let mut i: usize = 0;
    while i < n
        invariant
            i <= n,
            v@ == repeat(c, i as nat),
        decreases n - i,
    {
        v.push(c);
        i += 1;
        assert(v@ =~= repeat(c, i as nat));
    }
    v
}

fn client_row(i: usize, c: &ClientEntry, max: usize, p: Palette) -> (l: Line)
    requires
        i < usize::MAX,
        1 <= max,
        c.count <= max,
    ensures
        line_view(l) == client_line(i as nat, *c, max as nat, p.colored()),
{
    let filled0 = ((c.count as u128) * 10) / (max as u128);
    assert(filled0 <= 10) by (nonlinear_arith)
        requires
            filled0 == (c.count as int * 10) / (max as int),
            c.count <= max,
            1 <= max,
    ;
    let filled: usize = if filled0 < 1 { 1 } else { filled0 as usize };
    assert(filled == filled_cells(c.count as nat, max as nat));
    let mut a: Vec<char> = Vec::new();
    push_str(&mut a, "  ");
    let rank = pad_left(string_of(&dec_chars((i + 1) as u64)).as_str(), 2);
    push_str(&mut a, p.dim(rank.as_str(), pal::steel()).as_str());
    push_str(&mut a, "  ");
    push_str(&mut a, pad_right(p.paint(truncate(c.ip.as_str(), 15).as_str(), pal::chrome()).as_str(), 15).as_str());
    push_str(&mut a, " ");
    push_str(&mut a, p.paint(pad_right(truncate(c.ja4.as_str(), 38).as_str(), 38).as_str(), pal::magenta()).as_str());
    push_str(&mut a, " ");
    let (name, rgb) = match &c.client {
        Some(n) => (
            crate::util::text::clone_string(n),
            if same_text(n.as_str(), UNCLASSIFIED) {
                pal::mist()
            } else {
                pal::lime()
            },
        ),
        None => (string_of(&chars_of("—")), pal::mist()),
    };
    assert(name@ == client_shown(*c));
    assert(rgb == client_color(*c));
    push_str(&mut a, pad_right(p.paint(truncate(name.as_str(), 14).as_str(), rgb).as_str(), 14).as_str());
    push_str(&mut a, " ");
    let bar = p.gradient(string_of(&repeat_char('▰', filled)).as_str(), pal::magenta(), pal::cyan());
    let mut b: Vec<char> = Vec::new();
    push_str(&mut b, p.dim(string_of(&repeat_char('▱', 10 - filled)).as_str(), pal::void()).as_str());
    push_str(&mut b, " ");
    let count = pad_left(string_of(&dec_chars(c.count as u64)).as_str(), 4);
    push_str(&mut b, p.dim(count.as_str(), pal::mist()).as_str());
    let mut spans: Vec<Span> = Vec::new();
    spans.push(Span::Text(string_of(&a)));
    spans.push(bar);
    spans.push(Span::Text(string_of(&b)));
    let l = Line(spans);
    assert(line_view(l) =~= client_line(i as nat, *c, max as nat, p.colored()));
    l
}

fn max_of(cs: &Vec<ClientEntry>) -> (m: usize)
    ensures
        m == max_count(cs@),
{
    let mut m: usize = 1;
    let mut i: usize = 0;
    assert(cs@.take(0) =~= Seq::<ClientEntry>::empty());
    while i < cs.len()
        invariant
            i <= cs@.len(),
            m == max_count(cs@.take(i as int)),
        decreases cs.len() - i,
    {
        assert(cs@.take(i + 1).drop_last() =~= cs@.take(i as int));
        if cs[i].count > m {
            m = cs[i].count;
        }
        i += 1;
    }
    assert(cs@.take(cs@.len() as int) =~= cs@);
    m
}

fn push_chars(out: &mut Vec<Line>, v: &Vec<char>)
    ensures
        lines_view(final(out)@) == lines_view(old(out)@).push(text_line(v@)),
{
    let ghost before = lines_view(out@);
    out.push(one_span(v));
    assert(lines_view(out@) =~= before.push(text_line(v@)));
}

fn append(out: &mut Vec<Line>, more: Vec<Line>)
    ensures
        lines_view(final(out)@) == lines_view(old(out)@) + lines_view(more@),
{
    let ghost before = out@;
    let ghost m = more@;
    let mut more = more;
    out.append(&mut more);
    assert(out@ =~= before + m);
    assert(lines_view(out@) =~= lines_view(before) + lines_view(m));
}

/// Render the capture report.
pub fn render_pcap(report: &PcapReport, p: Palette, width: usize) -> (r: Vec<Line>)
    ensures
        lines_view(r@) == pcap_lines(*report, p.colored(), width as nat),
{
    let ghost color = p.colored();
    let empty: Vec<char> = Vec::new();
    let mut lines = header(report.file.as_str(), "pcap analysis", p, width);
    push_chars(&mut lines, &empty);
    let summary = Panel::new("summary").accent(pal::cyan()).row(
        Row::kv_tone("clients", string_of(&dec_chars(report.unique_clients as u64)).as_str(), Tone::Key),
    ).row(Row::kv_tone("handshakes", string_of(&dec_chars(report.total_handshakes as u64)).as_str(), Tone::Plain));
    assert(summary@.rows =~= seq![
        kv("clients"@, dec(report.unique_clients as nat), Tone::Key),
        kv("handshakes"@, dec(report.total_handshakes as nat), Tone::Plain),
    ]);
    append(&mut lines, summary.render(p, width));
    let ghost head = lines_view(lines@);
    if report.clients.len() == 0 {
        push_chars(&mut lines, &empty);
        let mut w: Vec<char> = Vec::new();
        push_str(&mut w, "  ");
        push_str(&mut w, p.bold(glyph::WARN, pal::amber()).as_str());
        push_str(&mut w, " ");
        push_str(&mut w, p.paint("no client hellos recovered from this capture", pal::mist()).as_str());
        push_chars(&mut lines, &w);
        let mut g: Vec<char> = Vec::new();
        push_str(&mut g, "  ");
        push_str(&mut g, p.dim("the capture may hold no tls, or streams may be truncated", pal::steel()).as_str());
        push_chars(&mut lines, &g);
        assert(lines_view(lines@) =~= pcap_lines(*report, color, width as nat));
        return lines;
    }
    push_chars(&mut lines, &empty);
    let mut t: Vec<char> = Vec::new();
    push_str(&mut t, "  ");
    push_str(&mut t, p.dim("  ", pal::steel()).as_str());
    push_str(&mut t, "  ");
    push_str(&mut t, pad_right(p.dim("source", pal::mist()).as_str(), 15).as_str());
    push_str(&mut t, " ");
    push_str(&mut t, pad_right(p.dim("ja4", pal::mist()).as_str(), 38).as_str());
    push_str(&mut t, " ");
    push_str(&mut t, pad_right(p.dim("client", pal::mist()).as_str(), 14).as_str());
    push_str(&mut t, " ");
    push_str(&mut t, p.dim("seen", pal::mist()).as_str());
    assert(t@ =~= column_titles(color));
    push_chars(&mut lines, &t);
    let rule_len: usize = if width > 2 { width - 2 } else { 0 };
    let mut rs: Vec<Span> = Vec::new();
    rs.push(Span::Text(string_of(&chars_of("  "))));
    rs.push(p.gradient(string_of(&repeat_char('─', rule_len)).as_str(), pal::steel(), pal::void()));
    let rl = Line(rs);
    assert(line_view(rl) =~= table_rule(color, width as nat));
    let ghost before_rule = lines_view(lines@);
    lines.push(rl);
    assert(lines_view(lines@) =~= before_rule.push(table_rule(color, width as nat)));
    let max = max_of(&report.clients);
    proof {
        lemma_max_count(report.clients@);
    }
    let ghost cs = report.clients@;
    let ghost rows = Seq::new(cs.len(), |i: int| client_line(i as nat, cs[i], max_count(cs), color));
    let ghost base = lines_view(lines@);
    let mut i: usize = 0;
    while i < report.clients.len()
        invariant
            i <= cs.len(),
            cs == report.clients@,
            max == max_count(cs),
            1 <= max,
            forall|k: int| 0 <= k < cs.len() ==> #[trigger] cs[k].count <= max,
            rows == Seq::new(cs.len(), |i: int| client_line(i as nat, cs[i], max_count(cs), color)),
            color == p.colored(),
            lines_view(lines@) == base + rows.take(i as int),
        decreases report.clients.len() - i,
    {
        let l = client_row(i, &report.clients[i], max, p);
        let ghost before = lines_view(lines@);
        lines.push(l);
        assert(lines_view(lines@) =~= before.push(line_view(l)));
        i += 1;
        assert(rows.take(i as int) =~= rows.take(i - 1).push(rows[i - 1]));
    }
    assert(rows.take(cs.len() as int) =~= rows);
    push_chars(&mut lines, &empty);
    let mut note = dec_chars(report.unique_clients as u64);
    push_str(&mut note, " unique fingerprints");
    let foot = footer(0, string_of(&note).as_str(), p);
    append(&mut lines, foot);
    assert(lines_view(lines@) =~= pcap_lines(*report, color, width as nat));
    lines
}

} // verus!
