//! Colors and styled text.
//!
//! Text is styled with 24-bit SGR escapes, or left untouched by the plain
//! palette (pipes, files, tests). A gradient colors each character on its
//! own; the library leaves gradient text as a [`Span::Gradient`] for the
//! terminal writer to color, and lays out everything else itself.

use crate::util::text::{chars_of, dec, dec_chars, push_all, push_str, string_of};
use vstd::prelude::*;

verus! {

/// An RGB color.
#[derive(Debug, Clone, Copy, PartialEq, Eq, Structural)]
pub struct Rgb(pub u8, pub u8, pub u8);

/// Whether colors are emitted.
#[derive(Debug, Clone, Copy, PartialEq, Eq, Structural)]
pub struct Palette {
    color: bool,
}

/// A piece of a report line: finished text, or text still to be colored
/// along a gradient from one color to another.
#[derive(Debug, Clone)]
pub enum Span {
    /// Finished text (escapes included when colored).
    Text(String),
    /// Text to color character by character from the first color to the
    /// second.
    Gradient(String, Rgb, Rgb),
}

/// What a span holds.
pub enum SpanV {
    Text(Seq<char>),
    Gradient(Seq<char>, Rgb, Rgb),
}

/// One report line, as spans.
#[derive(Debug, Clone)]
pub struct Line(pub Vec<Span>);

/// The view of a span.
pub open spec fn span_view(s: Span) -> SpanV {
    match s {
        Span::Text(t) => SpanV::Text(t@),
        Span::Gradient(t, a, b) => SpanV::Gradient(t@, a, b),
    }
}

/// The view of a line.
pub open spec fn line_view(l: Line) -> Seq<SpanV> {
    l.0@.map_values(|s: Span| span_view(s))
}

/// The views of lines.
pub open spec fn lines_view(v: Seq<Line>) -> Seq<Seq<SpanV>> {
    v.map_values(|l: Line| line_view(l))
}

/// The characters of a span (a gradient's text without its colors).
pub open spec fn span_text(s: SpanV) -> Seq<char> {
    match s {
        SpanV::Text(t) => t,
        SpanV::Gradient(t, _, _) => t,
    }
}

/// The characters of a line's spans, in order.
pub open spec fn line_text(l: Seq<SpanV>) -> Seq<char>
    decreases l.len(),
{
    if l.len() == 0 {
        Seq::empty()
    } else {
        line_text(l.drop_last()) + span_text(l.last())
    }
}

/// The escape-wrapped form of `text` in `fg`, after the style prefix
/// `style` (empty, `1;` bold or `2;` dim).
pub open spec fn sgr(style: Seq<char>, fg: Rgb, text: Seq<char>) -> Seq<char> {
    "\x1b["@ + style + "38;2;"@ + dec(fg.0 as nat) + ";"@ + dec(fg.1 as nat) + ";"@ + dec(fg.2 as nat) + "m"@
        + text + "\x1b[0m"@
}

/// `text` painted in `fg` (unchanged without color).
pub open spec fn paint_text(color: bool, text: Seq<char>, fg: Rgb) -> Seq<char> {
    if color {
        sgr(""@, fg, text)
    } else {
        text
    }
}

/// `text` bold in `fg` (unchanged without color).
pub open spec fn bold_text(color: bool, text: Seq<char>, fg: Rgb) -> Seq<char> {
    if color {
        sgr("1;"@, fg, text)
    } else {
        text
    }
}

/// `text` dim in `fg` (unchanged without color).
pub open spec fn dim_text(color: bool, text: Seq<char>, fg: Rgb) -> Seq<char> {
    if color {
        sgr("2;"@, fg, text)
    } else {
        text
    }
}

/// `text` along a gradient: plain text without color or when empty.
pub open spec fn gradient_span(color: bool, text: Seq<char>, from: Rgb, to: Rgb) -> SpanV {
    if color && text.len() > 0 {
        SpanV::Gradient(text, from, to)
    } else {
        SpanV::Text(text)
    }
}

/// The plain palette leaves text untouched: painting, bold and dim add
/// nothing, and a gradient stays plain text.
pub proof fn lemma_plain_adds_nothing(t: Seq<char>, fg: Rgb, to: Rgb)
    ensures
        paint_text(false, t, fg) == t,
        bold_text(false, t, fg) == t,
        dim_text(false, t, fg) == t,
        gradient_span(false, t, fg, to) == SpanV::Text(t),
{
}

/// A gradient keeps its text, colored or not.
pub proof fn lemma_gradient_keeps_text(color: bool, t: Seq<char>, from: Rgb, to: Rgb)
    ensures
        span_text(gradient_span(color, t, from, to)) == t,
{
}

fn push_sgr(out: &mut Vec<char>, style: &str, fg: Rgb, text: &str)
    ensures
        final(out)@ == old(out)@ + sgr(style@, fg, text@),
{
    push_str(out, "\x1b[");
    push_str(out, style);
    push_str(out, "38;2;");
    push_all(out, &dec_chars(fg.0 as u64));
    push_str(out, ";");
    push_all(out, &dec_chars(fg.1 as u64));
    push_str(out, ";");
    push_all(out, &dec_chars(fg.2 as u64));
    push_str(out, "m");
    push_str(out, text);
    push_str(out, "\x1b[0m");
    assert(final(out)@ =~= old(out)@ + sgr(style@, fg, text@));
}

impl Palette {
    /// Whether the palette emits color.
    pub closed spec fn colored(self) -> bool {
        self.color
    }

    /// Colored output.
    pub fn rich() -> (p: Palette)
        ensures
            p.colored(),
    {
        Palette { color: true }
    }

    /// No escape sequences at all.
    pub fn plain() -> (p: Palette)
        ensures
            !p.colored(),
    {
        Palette { color: false }
    }

    /// A palette that colors when `color` is set.
    pub fn with_color(color: bool) -> (p: Palette)
        ensures
            p.colored() == color,
    {
        Palette { color }
    }

    /// The palette the environment asks for: none under `NO_COLOR`, color
    /// under `FORCE_COLOR`, else color exactly on a terminal.
    pub fn detect(no_color: bool, force_color: bool, is_tty: bool) -> (p: Palette)
        ensures
            p.colored() == (!no_color && (force_color || is_tty)),
    {
        if no_color {
            return Palette::plain();
        }
        if force_color {
            return Palette::rich();
        }
        if is_tty {
            Palette::rich()
        } else {
            Palette::plain()
        }
    }

    /// Whether escape codes are emitted.
    pub fn is_color(self) -> (r: bool)
        ensures
            r == self.colored(),
    {
        self.color
    }

    /// Paint `text` in `fg`.
    pub fn paint(self, text: &str, fg: Rgb) -> (r: String)
        ensures
            r@ == paint_text(self.colored(), text@, fg),
    {
        let mut out: Vec<char> = Vec::new();
        if self.color {
            push_sgr(&mut out, "", fg, text);
        } else {
            push_str(&mut out, text);
            assert(out@ =~= text@);
        }
        string_of(&out)
    }

    /// Paint `text` bold in `fg`.
    pub fn bold(self, text: &str, fg: Rgb) -> (r: String)
        ensures
            r@ == bold_text(self.colored(), text@, fg),
    {
        let mut out: Vec<char> = Vec::new();
        if self.color {
            push_sgr(&mut out, "1;", fg, text);
        } else {
            push_str(&mut out, text);
            assert(out@ =~= text@);
        }
        string_of(&out)
    }

    /// Paint `text` dim in `fg`.
    pub fn dim(self, text: &str, fg: Rgb) -> (r: String)
        ensures
            r@ == dim_text(self.colored(), text@, fg),
    {
        let mut out: Vec<char> = Vec::new();
        if self.color {
            push_sgr(&mut out, "2;", fg, text);
        } else {
            push_str(&mut out, text);
            assert(out@ =~= text@);
        }
        string_of(&out)
    }

    /// `text` along a gradient from `from` to `to`: a gradient span when
    /// colored, plain text otherwise (and for empty text).
    pub fn gradient(self, text: &str, from: Rgb, to: Rgb) -> (r: Span)
        ensures
            span_view(r) == gradient_span(self.colored(), text@, from, to),
    {
        let cs = chars_of(text);
        if self.color && cs.len() > 0 {
            Span::Gradient(string_of(&cs), from, to)
        } else {
            Span::Text(string_of(&cs))
        }
    }
}

impl Line {
    /// The line's characters, spans joined, gradients uncolored.
    pub fn text(&self) -> (r: String)
        ensures
            r@ == line_text(line_view(*self)),
    {
        let mut out: Vec<char> = Vec::new();
        let mut i: usize = 0;
        let ghost lv = line_view(*self);
        assert(lv.take(0) =~= Seq::<SpanV>::empty());
        while i < self.0.len()
            invariant
                i <= self.0@.len(),
                lv == line_view(*self),
                out@ == line_text(lv.take(i as int)),
            decreases self.0.len() - i,
        {
            assert(lv.take(i + 1).drop_last() =~= lv.take(i as int));
            assert(lv[i as int] == span_view(self.0@[i as int]));
            match &self.0[i] {
                Span::Text(t) => push_str(&mut out, t.as_str()),
                Span::Gradient(t, _, _) => push_str(&mut out, t.as_str()),
            }
            i += 1;
        }
        assert(lv.take(lv.len() as int) =~= lv);
        string_of(&out)
    }
}

} // verus!
