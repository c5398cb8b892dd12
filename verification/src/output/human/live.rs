//! The live report, the `grip example.com` view.
//!
//! Sections are stacked tightly: a titled rule, then rows. The certificate
//! section absorbs the chain (`--cert-chain`), since intermediates are just
//! more certificates hanging off the leaf, and the fingerprints section
//! carries the client identity so that "who is this?" is never answered in
//! a footer.

use crate::output::human::cells::{contains_text, drop_colons, has_infix, join, join_spec, strings_view, strip_colons};
use crate::output::human::raw::{raw_text, render_raw};
use crate::output::model::{
    clone_opt, opt_string, CertSummary, Fingerprints, LiveReport, NegotiatedInfo, VerboseInfo, UNCLASSIFIED,
};
use crate::fp::lookup::same_text;
use crate::ui::glyph;
use crate::ui::pal;
use crate::ui::panel::{
    footer, footer_text, header, header_line, one_span, panel_lines, text_line, Panel, PanelV, Row, RowV, Tone,
};
use crate::ui::theme::{lines_view, Line, Palette, SpanV};
use crate::util::text::{chars_of, dec, dec_chars, push_all, push_str, string_of};
use vstd::prelude::*;

verus! {

/// A key/value row without a note.
pub open spec fn kv(key: Seq<char>, value: Seq<char>, tone: Tone) -> RowV {
    RowV::Kv { key, value, tone, note: None }
}

/// A key/value row with a note.
pub open spec fn kv_note(key: Seq<char>, value: Seq<char>, tone: Tone, note: Seq<char>) -> RowV {
    RowV::Kv { key, value, tone, note: Some(note) }
}

/// A key/value row when the value is present, nothing otherwise.
pub open spec fn opt_kv(key: Seq<char>, value: Option<Seq<char>>, tone: Tone) -> Seq<RowV> {
    match value {
        Some(v) => seq![kv(key, v, tone)],
        None => Seq::empty(),
    }
}

/// The rows of the negotiated section.
pub open spec fn negotiated_rows(n: NegotiatedInfo) -> Seq<RowV> {
    seq![
        kv("tls version"@, n.tls_version@, Tone::Key),
        kv_note("cipher suite"@, n.cipher_suite@, Tone::Plain, n.cipher_hex@),
    ] + opt_kv("key exchange"@, opt_string(n.key_exchange), Tone::Plain) + opt_kv(
        "alpn"@,
        opt_string(n.alpn),
        Tone::Plain,
    ) + match n.sni {
        Some(s) => seq![kv_note("sni"@, s@, Tone::Plain, if n.sni_is_ip { "ip literal"@ } else { "hostname"@ })],
        None => Seq::empty(),
    } + if n.offered_versions@.len() > 0 {
        seq![kv("offered"@, join_spec(strings_view(n.offered_versions@), " · "@), Tone::Muted)]
    } else {
        Seq::empty()
    }
}

/// What the certificate section says when no certificate was recovered.
pub open spec fn not_recovered_note() -> Seq<char> {
    "tls 1.3 encrypts the certificate message; the verified fallback also failed — retry with --no-verify"@
}

/// The row listing up to three SANs, with a note counting the rest.
pub open spec fn sans_rows(sans: Seq<Seq<char>>) -> Seq<RowV> {
    if sans.len() == 0 {
        Seq::empty()
    } else {
        let shown = join_spec(if sans.len() <= 3 { sans } else { sans.take(3) }, "  "@);
        if sans.len() > 3 {
            seq![kv_note("sans"@, shown, Tone::Plain, "+"@ + dec((sans.len() - 3) as nat) + " more"@)]
        } else {
            seq![kv("sans"@, shown, Tone::Plain)]
        }
    }
}

/// The rows of the certificate section.
pub open spec fn certificate_rows(c: Option<CertSummary>) -> Seq<RowV> {
    match c {
        Some(c) => opt_kv("subject"@, opt_string(c.subject), Tone::Key) + opt_kv(
            "issuer"@,
            opt_string(c.issuer),
            Tone::Plain,
        ) + sans_rows(strings_view(c.sans@)) + match c.expires {
            Some(e) => seq![kv("expires"@, e@, if has_infix(e@, "expired"@) { Tone::Bad } else { Tone::Good })],
            None => Seq::empty(),
        } + match c.sha256 {
            Some(s) => seq![kv("sha-256"@, drop_colons(s@), Tone::Muted)],
            None => Seq::empty(),
        } + opt_kv("ct logs"@, opt_string(c.ct_logs), Tone::Plain),
        None => seq![kv("status"@, "not recovered"@, Tone::Bad), RowV::Note(not_recovered_note())],
    }
}

/// The rows for the certificate at `depth` in the chain.
pub open spec fn depth_rows(c: CertSummary, depth: nat) -> Seq<RowV> {
    seq![kv("chain "@ + dec(depth), match c.subject {
        Some(s) => s@,
        None => "—"@,
    }, Tone::Plain)] + match c.sha256 {
        Some(fp) => seq![RowV::Note(glyph::LINK@ + " "@ + drop_colons(fp@))],
        None => Seq::empty(),
    }
}

/// The rows of the first `n` certificates of the chain, the leaf (depth 0)
/// left out.
pub open spec fn chain_rows(chain: Seq<CertSummary>, n: nat) -> Seq<RowV>
    decreases n,
{
    if n <= 1 {
        Seq::empty()
    } else {
        chain_rows(chain, (n - 1) as nat) + depth_rows(chain[n - 1], (n - 1) as nat)
    }
}

/// The rows of the fingerprints section.
pub open spec fn fingerprint_rows(f: Fingerprints) -> Seq<RowV> {
    if f.ja3.is_some() || f.ja4.is_some() || f.ja4s.is_some() {
        opt_kv("ja3"@, opt_string(f.ja3), Tone::Sig) + opt_kv("ja4"@, opt_string(f.ja4), Tone::Sig) + opt_kv(
            "ja4s"@,
            opt_string(f.ja4s),
            Tone::Sig,
        ) + match f.lookup {
            Some(name) => if name@ == UNCLASSIFIED@ {
                seq![kv("client"@, name@, Tone::Muted)]
            } else {
                seq![kv("client"@, "matches "@ + name@, Tone::Good)]
            },
            None => Seq::empty(),
        }
    } else {
        seq![kv("none"@, "use --all-fp"@, Tone::Muted)]
    }
}

/// The rows of the telemetry section.
pub open spec fn telemetry_rows(v: VerboseInfo) -> Seq<RowV> {
    seq![
        kv("handshake"@, dec(v.handshake_ms as nat) + " ms"@, Tone::Key),
        kv_note("bytes"@, dec(v.bytes_sent as nat) + " out"@, Tone::Plain, dec(v.bytes_received as nat) + " in"@),
        kv("grease"@, dec(v.grease_filtered as nat) + " filtered"@, Tone::Muted),
    ] + if v.resolved_ips@.len() > 0 {
        seq![kv("resolved"@, join_spec(strings_view(v.resolved_ips@), "  "@), Tone::Muted)]
    } else {
        Seq::empty()
    }
}

/// A section with its title, accent and rows.
pub open spec fn section(title: Seq<char>, accent: crate::ui::theme::Rgb, rows: Seq<RowV>) -> PanelV {
    PanelV { title, accent, rows }
}

/// One empty line.
pub open spec fn blank() -> Seq<Seq<SpanV>> {
    seq![text_line(Seq::empty())]
}

/// The rows of the certificate section: the leaf's rows, then the rest of
/// the chain when it was kept (the leaf's issuer is the first
/// intermediate's subject, so the section reads as one chain).
pub open spec fn cert_section_rows(r: LiveReport) -> Seq<RowV> {
    certificate_rows(r.certificate) + match r.cert_chain {
        Some(c) => chain_rows(c@, c@.len()),
        None => Seq::empty(),
    }
}

/// The telemetry section after an empty line, when verbose.
pub open spec fn telemetry_part(r: LiveReport, color: bool, width: nat) -> Seq<Seq<SpanV>> {
    match r.verbose_info {
        Some(v) => blank() + panel_lines(section("telemetry"@, pal::azure(), telemetry_rows(v)), color, width),
        None => Seq::empty(),
    }
}

/// The handshake time the footer shows (0: none).
pub open spec fn elapsed_of(r: LiveReport) -> u128 {
    match r.verbose_info {
        Some(v) => v.handshake_ms,
        None => 0,
    }
}

/// The footer after an empty line, when a handshake time is known.
pub open spec fn footer_part(r: LiveReport, color: bool) -> Seq<Seq<SpanV>> {
    if elapsed_of(r) > 0 {
        blank() + seq![text_line(footer_text(elapsed_of(r), Seq::empty(), color))]
    } else {
        Seq::empty()
    }
}

/// The raw section, when asked for.
pub open spec fn raw_part(r: LiveReport, color: bool) -> Seq<Seq<SpanV>> {
    match r.raw {
        Some(x) => raw_text(x, color).map_values(|t: Seq<char>| text_line(t)),
        None => Seq::empty(),
    }
}

/// The live report, line by line: the header; the negotiated and
/// certificate sections; the fingerprints; the telemetry when verbose; the footer when
/// a handshake time is known; the raw section when asked for. Sections are
/// parted by an empty line.
pub open spec fn live_lines(r: LiveReport, color: bool, width: nat) -> Seq<Seq<SpanV>> {
    seq![header_line(r.target@, "live handshake"@, color, width)] + blank() + panel_lines(
        section("negotiated"@, pal::cyan(), negotiated_rows(r.negotiated)),
        color,
        width,
    ) + blank() + panel_lines(section("certificate"@, pal::amber(), cert_section_rows(r)), color, width) + blank()
        + panel_lines(
        section("fingerprints"@, pal::magenta(), fingerprint_rows(r.fingerprints)),
        color,
        width,
    ) + telemetry_part(r, color, width) + footer_part(r, color) + raw_part(r, color)
}

fn negotiated_panel(n: &NegotiatedInfo) -> (p: Panel)
    ensures
        p@ == section("negotiated"@, pal::cyan(), negotiated_rows(*n)),
{
    let mut panel = Panel::new("negotiated").accent(pal::cyan()).row(
        Row::kv_tone("tls version", n.tls_version.as_str(), Tone::Key),
    ).row(Row::kv_tone("cipher suite", n.cipher_suite.as_str(), Tone::Plain).note(n.cipher_hex.as_str()));
    panel = panel.row_opt("key exchange", clone_opt(&n.key_exchange), Tone::Plain).row_opt(
        "alpn",
        clone_opt(&n.alpn),
        Tone::Plain,
    );
    let ghost mid = panel@.rows;
    match &n.sni {
        Some(sni) => {
            let kind = if n.sni_is_ip {
                "ip literal"
            } else {
                "hostname"
            };
            panel = panel.row(Row::kv_tone("sni", sni.as_str(), Tone::Plain).note(kind));
        },
        None => {},
    }
    let ghost mid2 = panel@.rows;
    if n.offered_versions.len() > 0 {
        let joined = join(n.offered_versions.as_slice(), " · ");
        panel = panel.row(Row::kv_tone("offered", joined.as_str(), Tone::Muted));
    }
    assert(panel@.rows =~= negotiated_rows(*n));
    panel
}

fn first_three(v: &Vec<String>) -> (r: Vec<String>)
    ensures
        strings_view(r@) == if v@.len() <= 3 { strings_view(v@) } else { strings_view(v@).take(3) },
{
    let mut out: Vec<String> = Vec::new();
    let mut i: usize = 0;
    let n: usize = if v.len() <= 3 { v.len() } else { 3 };
    while i < n
        invariant
            i <= n <= v@.len(),
            n == if v@.len() <= 3 { v@.len() } else { 3 },
            strings_view(out@) == strings_view(v@).take(i as int),
        decreases n - i,
    {
        let ghost before = strings_view(out@);
        out.push(crate::util::text::clone_string(&v[i]));
        assert(strings_view(out@) =~= before.push(v@[i as int]@));
        i += 1;
        assert(strings_view(v@).take(i as int) =~= strings_view(v@).take(i - 1).push(v@[i - 1]@));
    }
    assert(strings_view(v@).take(v@.len() as int) =~= strings_view(v@));
    out
}

fn sans_row(sans: &Vec<String>) -> (r: Row)
    requires
        sans@.len() > 0,
    ensures
        seq![crate::ui::panel::row_view(r)] == sans_rows(strings_view(sans@)),
{
    let shown = join(first_three(sans).as_slice(), "  ");
    let row = Row::kv_tone("sans", shown.as_str(), Tone::Plain);
    if sans.len() > 3 {
        let mut note: Vec<char> = Vec::new();
        push_str(&mut note, "+");
        push_all(&mut note, &dec_chars((sans.len() - 3) as u64));
        push_str(&mut note, " more");
        row.note(string_of(&note).as_str())
    } else {
        row
    }
}

fn leaf_panel(c: &Option<CertSummary>) -> (p: Panel)
    ensures
        p@ == section("certificate"@, pal::amber(), certificate_rows(*c)),
{
    let mut panel = Panel::new("certificate").accent(pal::amber());
    match c {
        Some(c) => {
            panel = panel.row_opt("subject", clone_opt(&c.subject), Tone::Key).row_opt(
                "issuer",
                clone_opt(&c.issuer),
                Tone::Plain,
            );
            if c.sans.len() > 0 {
                panel = panel.row(sans_row(&c.sans));
            }
            match &c.expires {
                Some(exp) => {
                    let tone = if contains_text(exp.as_str(), "expired") {
                        Tone::Bad
                    } else {
                        Tone::Good
                    };
                    panel = panel.row(Row::kv_tone("expires", exp.as_str(), tone));
                },
                None => {},
            }
            match &c.sha256 {
                Some(s) => {
                    panel = panel.row(Row::kv_tone("sha-256", strip_colons(s.as_str()).as_str(), Tone::Muted));
                },
                None => {},
            }
            panel = panel.row_opt("ct logs", clone_opt(&c.ct_logs), Tone::Plain);
            assert(panel@.rows =~= certificate_rows(Some(*c)));
        },
        None => {
            panel = panel.row(Row::kv_tone("status", "not recovered", Tone::Bad)).row(
                Row::Note(
                    string_of(
                        &chars_of(
                            "tls 1.3 encrypts the certificate message; the verified fallback also failed — retry with --no-verify",
                        ),
                    ),
                ),
            );
            assert(panel@.rows =~= certificate_rows(None));
        },
    }
    panel
}

fn certificate_panel(r: &LiveReport) -> (p: Panel)
    ensures
        p@ == section("certificate"@, pal::amber(), cert_section_rows(*r)),
{
    let mut panel = leaf_panel(&r.certificate);
    let ghost leaf_rows = panel@.rows;
    let chain = match &r.cert_chain {
        Some(chain) => chain,
        None => {
            assert(panel@.rows =~= cert_section_rows(*r));
            return panel;
        },
    };
    assert(panel@.rows =~= leaf_rows + chain_rows(chain@, 0));
    if chain.len() == 0 {
        assert(panel@.rows =~= cert_section_rows(*r));
        return panel;
    }
    let mut i: usize = 1;
    assert(panel@.rows =~= leaf_rows + chain_rows(chain@, 1));
    while i < chain.len()
        invariant
            1 <= i <= chain@.len(),
            panel@ == section("certificate"@, pal::amber(), leaf_rows + chain_rows(chain@, i as nat)),
        decreases chain.len() - i,
    {
        let c = &chain[i];
        let mut key: Vec<char> = Vec::new();
        push_str(&mut key, "chain ");
        push_all(&mut key, &dec_chars(i as u64));
        let subject = match &c.subject {
            Some(s) => crate::util::text::clone_string(s),
            None => string_of(&chars_of("—")),
        };
        panel = panel.row(Row::kv_tone(string_of(&key).as_str(), subject.as_str(), Tone::Plain));
        match &c.sha256 {
            Some(fp) => {
                let mut t: Vec<char> = Vec::new();
                push_str(&mut t, glyph::LINK);
                push_str(&mut t, " ");
                push_str(&mut t, strip_colons(fp.as_str()).as_str());
                panel = panel.row(Row::Note(string_of(&t)));
            },
            None => {},
        }
        i += 1;
        assert(panel@.rows =~= leaf_rows + chain_rows(chain@, i as nat));
    }
    assert(panel@.rows =~= cert_section_rows(*r));
    panel
}

fn fingerprints_panel(f: &Fingerprints) -> (p: Panel)
    ensures
        p@ == section("fingerprints"@, pal::magenta(), fingerprint_rows(*f)),
{
    let mut panel = Panel::new("fingerprints").accent(pal::magenta());
    let any = f.ja3.is_some() || f.ja4.is_some() || f.ja4s.is_some();
    if any {
        panel = panel.row_opt("ja3", clone_opt(&f.ja3), Tone::Sig).row_opt("ja4", clone_opt(&f.ja4), Tone::Sig).row_opt(
            "ja4s",
            clone_opt(&f.ja4s),
            Tone::Sig,
        );
        match &f.lookup {
            Some(name) => {
                if same_text(name.as_str(), UNCLASSIFIED) {
                    panel = panel.row(Row::kv_tone("client", name.as_str(), Tone::Muted));
                } else {
                    let mut t: Vec<char> = Vec::new();
                    push_str(&mut t, "matches ");
                    push_str(&mut t, name.as_str());
                    panel = panel.row(Row::kv_tone("client", string_of(&t).as_str(), Tone::Good));
                }
            },
            None => {},
        }
    } else {
        panel = panel.row(Row::kv_tone("none", "use --all-fp", Tone::Muted));
    }
    assert(panel@.rows =~= fingerprint_rows(*f));
    panel
}

fn number_text(n: u64, unit: &str) -> (r: String)
    ensures
        r@ == dec(n as nat) + unit@,
{
    let mut t = dec_chars(n);
    push_str(&mut t, unit);
    string_of(&t)
}

fn telemetry_panel(v: &VerboseInfo) -> (p: Panel)
    ensures
        p@ == section("telemetry"@, pal::azure(), telemetry_rows(*v)),
{
    let mut ms = crate::util::text::dec_chars_wide(v.handshake_ms);
    push_str(&mut ms, " ms");
    let mut t = Panel::new("telemetry").accent(pal::azure()).row(
        Row::kv_tone("handshake", string_of(&ms).as_str(), Tone::Key),
    ).row(
        Row::kv_tone("bytes", number_text(v.bytes_sent as u64, " out").as_str(), Tone::Plain).note(
            number_text(v.bytes_received as u64, " in").as_str(),
        ),
    ).row(Row::kv_tone("grease", number_text(v.grease_filtered as u64, " filtered").as_str(), Tone::Muted));
    if v.resolved_ips.len() > 0 {
        t = t.row(Row::kv_tone("resolved", join(v.resolved_ips.as_slice(), "  ").as_str(), Tone::Muted));
    }
    assert(t@.rows =~= telemetry_rows(*v));
    t
}

fn push_blank(out: &mut Vec<Line>)
    ensures
        lines_view(final(out)@) == lines_view(old(out)@) + blank(),
{
    let ghost before = lines_view(out@);
    let empty: Vec<char> = Vec::new();
    out.push(one_span(&empty));
    assert(lines_view(out@) =~= before + blank());
}

fn append(out: &mut Vec<Line>, more: Vec<Line>)
    ensures
        lines_view(final(out)@) == lines_view(old(out)@) + lines_view(more@),
{
    let ghost before = out@;
    let ghost m = more@;
    let mut more = more;
    out.append(&mut more);
    assert(out@ =~= before + m);
    assert(lines_view(out@) =~= lines_view(before) + lines_view(m));
}

/// Render the live report.
pub fn render_live(report: &LiveReport, p: Palette, width: usize) -> (r: Vec<Line>)
    ensures
        lines_view(r@) == live_lines(*report, p.colored(), width as nat),
{
    let ghost color = p.colored();
    let ghost w = width as nat;
    let mut lines = header(report.target.as_str(), "live handshake", p, width);
    push_blank(&mut lines);
    append(&mut lines, negotiated_panel(&report.negotiated).render(p, width));
    push_blank(&mut lines);
    append(&mut lines, certificate_panel(report).render(p, width));
    let ghost part1 = lines_view(lines@);
    assert(part1 =~= seq![header_line(report.target@, "live handshake"@, color, w)] + blank() + panel_lines(
        section("negotiated"@, pal::cyan(), negotiated_rows(report.negotiated)),
        color,
        w,
    ) + blank() + panel_lines(section("certificate"@, pal::amber(), cert_section_rows(*report)), color, w));
    push_blank(&mut lines);
    append(&mut lines, fingerprints_panel(&report.fingerprints).render(p, width));
    let ghost part3 = lines_view(lines@);
    assert(part3 =~= part1 + blank() + panel_lines(
        section("fingerprints"@, pal::magenta(), fingerprint_rows(report.fingerprints)),
        color,
        w,
    ));
    match &report.verbose_info {
        Some(v) => {
            push_blank(&mut lines);
            append(&mut lines, telemetry_panel(v).render(p, width));
        },
        None => {},
    }
    assert(lines_view(lines@) =~= part3 + telemetry_part(*report, color, w));
    let ghost part4 = lines_view(lines@);
    let elapsed: u128 = match &report.verbose_info {
        Some(v) => v.handshake_ms,
        None => 0,
    };
    assert(elapsed == elapsed_of(*report));
    let foot = footer(elapsed, "", p);
    proof {
        reveal_strlit("");
    }
    assert(lines_view(foot@).len() == foot@.len());
    if foot.len() > 0 {
        push_blank(&mut lines);
        append(&mut lines, foot);
    }
    assert(lines_view(lines@) =~= part4 + footer_part(*report, color));
    let ghost part5 = lines_view(lines@);
    match &report.raw {
        Some(raw) => append(&mut lines, render_raw(raw, p)),
        None => {},
    }
    assert(lines_view(lines@) =~= part5 + raw_part(*report, color));
    assert(lines_view(lines@) =~= live_lines(*report, p.colored(), width as nat));
    lines
}

} // verus!
