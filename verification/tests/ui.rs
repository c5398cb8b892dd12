use grip::ui::mascot::MARK;
use grip::ui::pal;
use grip::ui::panel::{footer, header, truncate, wrap};
use grip::ui::stage::{render, Checklist, Phase, Step};
use grip::ui::theme::{Line, Rgb, Span};
use grip::ui::{Palette, Panel, Row, Tone};

fn texts(lines: &[Line]) -> Vec<String> {
    lines.iter().map(|l| l.text()).collect()
}

fn width_of(line: &str) -> usize {
    line.chars().count()
}

fn strip(s: &str) -> String {
    let mut out = String::new();
    let mut esc = false;
    for c in s.chars() {
        if esc {
            if c == 'm' {
                esc = false;
            }
        } else if c == '\x1b' {
            esc = true;
        } else {
            out.push(c);
        }
    }
    out
}

fn sample(width: usize) -> Vec<String> {
    texts(
        &Panel::new("negotiated")
            .row(Row::kv("tls version", "TLS 1.3"))
            .row(Row::kv_tone("cipher", "TLS_AES_128_GCM_SHA256", Tone::Key).note("0x1301"))
            .row(Row::Note("a supporting note that is long enough to wrap over lines".to_string()))
            .render(Palette::plain(), width),
    )
}

fn span_text(s: Span) -> String {
    Line(vec![s]).text()
}

#[test]
fn mark_is_single_column() {
    assert_eq!(MARK.chars().count(), 1);
}

#[test]
fn section_header_precedes_rows_and_stays_in_width() {
    let width = 60;
    let lines = sample(width);
    assert!(lines[0].trim_start().starts_with("negotiated"));
    assert!(lines[0].contains('─'), "header carries a rule");
    for l in &lines {
        assert!(width_of(l) <= width, "line exceeds width: {l:?}");
        assert!(!l.contains('\x1b'));
    }
}

#[test]
fn colored_has_same_visible_width_as_plain() {
    let build = || {
        Panel::new("certificate")
            .row(Row::kv("subject", "CN=example.com"))
            .row(Row::kv_tone("expires", "2026-11-15", Tone::Good).note("77 days"))
    };
    let plain = texts(&build().render(Palette::plain(), 80));
    let rich = texts(&build().render(Palette::rich(), 80));
    assert_eq!(plain.len(), rich.len());
    for (a, b) in plain.iter().zip(rich.iter()) {
        assert_eq!(width_of(a), width_of(&strip(b)), "visible width drift");
    }
}

#[test]
fn empty_panel_renders_nothing() {
    assert!(Panel::new("x").render(Palette::plain(), 80).is_empty());
}

#[test]
fn row_opt_skips_none() {
    let p = Panel::new("x").row_opt("a", Some("1".to_string()), Tone::Plain).row_opt("b", None, Tone::Plain);
    assert_eq!(p.render(Palette::plain(), 80).len(), 2);
}

#[test]
fn long_values_wrap_not_truncate() {
    let long = "x".repeat(400);
    let lines = texts(&Panel::new("t").row(Row::kv("k", &long)).render(Palette::plain(), 60));
    assert!(lines.len() > 3, "value must spill to continuation lines");
    assert!(!lines.iter().any(|l| l.contains('…')), "no truncation");
    let body: String = lines.iter().skip(1).cloned().collect();
    assert_eq!(body.matches('x').count(), 400, "every char survives");
    for l in &lines {
        assert!(width_of(l) <= 60, "line exceeds width: {l:?}");
    }
}

#[test]
fn notes_attach_or_wrap_without_loss() {
    let lines = texts(&Panel::new("t").row(Row::kv_tone("sni", "example.com", Tone::Plain).note("hostname")).render(Palette::plain(), 80));
    assert!(lines[1].ends_with("hostname"));

    let long_note = "n".repeat(200);
    let lines = texts(&Panel::new("t").row(Row::kv("k", "v").note(&long_note)).render(Palette::plain(), 50));
    let joined: String = lines.iter().skip(1).cloned().collect();
    assert_eq!(joined.matches('n').count(), 200, "note survives");
}

#[test]
fn wrap_respects_max_and_preserves_words() {
    fn words(t: &str) -> Vec<&str> {
        t.split_whitespace().collect()
    }
    let s = "C=US, O=SSL Corporation, CN=Cloudflare TLS Issuing ECC Intermediate CA - G3";
    let lines = wrap(s, 40);
    for l in &lines {
        assert!(l.chars().count() <= 40, "line too long: {l:?}");
    }
    let joined = lines.join(" ");
    assert_eq!(words(&joined), words(s));
}

#[test]
fn wrap_hard_splits_words_longer_than_a_line() {
    let hex = "ab".repeat(64);
    let lines = wrap(&hex, 30);
    assert!(lines.iter().all(|l| l.chars().count() <= 30));
    assert_eq!(lines.concat(), hex);
    assert_eq!(wrap("short", 30), vec!["short".to_string()]);
}

#[test]
fn truncate_is_char_safe() {
    let s = "ünïcødé-subject-name";
    let t = truncate(s, 6);
    assert_eq!(t.chars().count(), 6);
    assert!(t.ends_with('…'));
    assert_eq!(truncate("abc", 10), "abc");
    assert_eq!(truncate("abc", 0), "");
}

#[test]
fn header_is_a_single_line() {
    let h = texts(&header("example.com:443", "live handshake", Palette::plain(), 80));
    assert_eq!(h.len(), 1);
    assert!(h[0].contains("grip"));
    assert!(h[0].contains("example.com:443"));
    assert!(width_of(&h[0]) <= 80);
}

#[test]
fn footer_is_absent_when_empty_and_shows_data_when_not() {
    assert!(footer(0, "", Palette::plain()).is_empty());
    let f = texts(&footer(42, "3 unique fingerprints", Palette::plain()));
    assert_eq!(f.len(), 1);
    assert!(f[0].contains("42 ms"));
    assert!(f[0].contains("3 unique fingerprints"));
}

fn sample_checklist() -> Checklist {
    Checklist {
        steps: vec![
            Step { label: "resolve".to_string(), phase: Phase::Done, result: "93.184.216.34".to_string() },
            Step { label: "connect".to_string(), phase: Phase::Active, result: String::new() },
            Step { label: "fingerprint".to_string(), phase: Phase::Pending, result: String::new() },
        ],
        detail: "tcp handshake".to_string(),
        active: true,
    }
}

#[test]
fn block_height_equals_step_count() {
    let f = render(&sample_checklist(), Palette::plain());
    assert_eq!(f.len(), 3);
}

#[test]
fn plain_render_shows_state_and_data() {
    let f = render(&sample_checklist(), Palette::plain());
    let joined = f.join("\n");
    assert!(!joined.contains('\x1b'), "plain must not emit ansi");
    assert!(joined.contains("resolve"));
    assert!(joined.contains("93.184.216.34"), "done result shown");
    assert!(joined.contains("connect"));
    assert!(joined.contains("tcp handshake"), "active detail shown");
    assert!(joined.contains("fingerprint"), "pending label shown");
}

#[test]
fn done_mark_is_the_grip() {
    let f = render(&sample_checklist(), Palette::plain());
    assert!(f[0].contains(MARK));
}

#[test]
fn failed_step_shows_reason() {
    let mut st = sample_checklist();
    st.steps[1].phase = Phase::Failed;
    st.steps[1].result = "connection refused".to_string();
    let f = render(&st, Palette::plain());
    assert!(f[1].contains("connection refused"));
}

#[test]
fn inert_stage_is_silent_and_idempotent() {
    let mut st = Checklist::new(&["a", "b"], false);
    st.begin(0, "d");
    st.complete(0, "r");
    st.fail(1, "x");
    st.set_detail("y");
    assert!(st.steps.iter().all(|s| s.phase == Phase::Pending && s.result.is_empty()));
    assert!(st.detail.is_empty());
}

#[test]
fn out_of_range_indices_are_ignored() {
    let mut st = Checklist::new(&["a"], true);
    st.begin(9, "no panic");
    st.complete(9, "no panic");
    st.fail(9, "no panic");
    assert_eq!(st.steps.len(), 1);
    assert_eq!(st.steps[0].phase, Phase::Pending);
    assert_eq!(st.detail, "no panic");
}

#[test]
fn plain_emits_no_escapes() {
    let p = Palette::plain();
    assert_eq!(p.paint("x", pal::cyan()), "x");
    assert_eq!(span_text(p.gradient("hello", pal::cyan(), pal::amber())), "hello");
    assert_eq!(p.bold("x", pal::cyan()), "x");
}

#[test]
fn rich_wraps_in_sgr() {
    let p = Palette::rich();
    let s = p.paint("x", Rgb(1, 2, 3));
    assert_eq!(s, "\x1b[38;2;1;2;3mx\x1b[0m");
}

#[test]
fn gradient_preserves_visible_text() {
    let p = Palette::rich();
    let s = p.gradient("abc", pal::cyan(), pal::amber());
    assert_eq!(strip(&span_text(s)), "abc");
}

#[test]
fn checklist_lines_are_exact() {
    let mut st = Checklist::new(&["resolve", "connect"], true);
    st.complete(0, "1.2.3.4");
    st.begin(1, "tcp");
    let f = render(&st, Palette::plain());
    assert_eq!(f[0], format!("  {MARK}  resolve     1.2.3.4"));
    assert_eq!(f[1], format!("  {MARK}  connect     tcp"));
    st.fail(1, "refused");
    assert_eq!(render(&st, Palette::plain())[1], "  ✘  connect     refused");
}

#[test]
fn styles_and_gradients_when_colored() {
    let p = Palette::rich();
    assert_eq!(p.bold("x", Rgb(1, 2, 3)), "\x1b[1;38;2;1;2;3mx\x1b[0m");
    assert_eq!(p.dim("x", Rgb(10, 200, 3)), "\x1b[2;38;2;10;200;3mx\x1b[0m");
    assert!(matches!(p.gradient("ab", Rgb(0, 0, 0), Rgb(9, 9, 9)), Span::Gradient(_, _, _)));
    assert!(matches!(p.gradient("", Rgb(0, 0, 0), Rgb(9, 9, 9)), Span::Text(_)));
    assert_eq!(Tone::Key.rgb(), pal::amber());
}

#[test]
fn wrapping_keeps_every_visible_character() {
    let s = "alpha  beta\tgamma delta-epsilon-zeta-eta-theta iota";
    for max in [1usize, 3, 7, 12, 20] {
        let lines = wrap(s, max);
        let kept: String = lines.concat().chars().filter(|c| !c.is_whitespace()).collect();
        let all: String = s.chars().filter(|c| !c.is_whitespace()).collect();
        assert_eq!(kept, all, "max {max}");
        assert!(lines.iter().all(|l| l.chars().count() <= max), "max {max}");
    }
    assert_eq!(wrap("a b", 0), vec!["a b".to_string()]);
}
