//! Raw byte forensics for `--raw`: both hellos dumped in hex, and the
//! client hello decoded field by field.

use crate::output::hex::{dump_lines, hexdump};
use crate::output::human::cells::{pad_right, pad_right_spec, split_kv, split_kv_spec, split_lines, text_lines, vec_views};
use crate::output::model::RawHex;
use crate::ui::glyph;
use crate::ui::pal;
use crate::ui::panel::{one_span, text_line};
use crate::ui::theme::{bold_text, dim_text, lines_view, paint_text, Line, Palette, SpanV};
use crate::util::hex::{decode_strict, hex_bytes, strict_hex};
use crate::util::text::{chars_of, dec, dec_chars, push_all, push_str};
use vstd::prelude::*;

verus! {

/// The bytes a hex field spells; none when it is not clean hex.
pub open spec fn raw_bytes(h: Seq<char>) -> Seq<u8> {
    if strict_hex(h) {
        hex_bytes(h)
    } else {
        Seq::empty()
    }
}

/// The title of a hello's dump: its name and its size in bytes.
pub open spec fn hello_title(name: Seq<char>, accent: crate::ui::theme::Rgb, n: nat, color: bool) -> Seq<char> {
    "  "@ + bold_text(color, name, accent) + "  "@ + dim_text(color, dec(n) + " bytes"@, pal::steel())
}

/// A decoded `key: value` line: a leader, the key in an 18-wide column,
/// the value.
pub open spec fn decoded_line(l: Seq<char>, color: bool) -> Seq<char> {
    let (k, v) = split_kv_spec(l);
    "  "@ + dim_text(color, glyph::LEAD@, pal::steel()) + " "@ + pad_right_spec(dim_text(color, k, pal::mist()), 18)
        + " "@ + paint_text(color, v, pal::chrome())
}

/// The text of the raw section, line by line: a blank line, the client
/// hello's title and dump, a blank line, the decoded fields, a blank line,
/// the server hello's title and dump.
pub open spec fn raw_text(raw: RawHex, color: bool) -> Seq<Seq<char>> {
    let ch = raw_bytes(raw.client_hello_hex@);
    let sh = raw_bytes(raw.server_hello_hex@);
    seq![Seq::empty(), hello_title("client hello"@, pal::cyan(), ch.len(), color)] + dump_lines(ch) + seq![
        Seq::empty(),
        "  "@ + bold_text(color, "decoded"@, pal::mist()),
    ] + text_lines(raw.client_hello_parsed@).map_values(|l: Seq<char>| decoded_line(l, color)) + seq![
        Seq::empty(),
        hello_title("server hello"@, pal::amber(), sh.len(), color),
    ] + dump_lines(sh)
}

fn bytes_of(h: &String) -> (r: Vec<u8>)
    ensures
        r@ == raw_bytes(h@),
{
    match decode_strict(h.as_str()) {
        Some(v) => v,
        None => Vec::new(),
    }
}

fn push_chars(out: &mut Vec<Line>, v: &Vec<char>)
    ensures
        lines_view(final(out)@) == lines_view(old(out)@).push(text_line(v@)),
{
    let ghost before = lines_view(out@);
    out.push(one_span(v));
    assert(lines_view(out@) =~= before.push(text_line(v@)));
}

fn push_strings(out: &mut Vec<Line>, v: &Vec<String>)
    ensures
        lines_view(final(out)@) == lines_view(old(out)@) + v@.map_values(|s: String| s@).map_values(
            |t: Seq<char>| text_line(t),
        ),
{
    let ghost start = lines_view(out@);
    let ghost vv = v@.map_values(|s: String| s@).map_values(|t: Seq<char>| text_line(t));
    let mut i: usize = 0;
    while i < v.len()
        invariant
            i <= v@.len(),
            vv == v@.map_values(|s: String| s@).map_values(|t: Seq<char>| text_line(t)),
            lines_view(out@) == start + vv.take(i as int),
        decreases v.len() - i,
    {
        push_chars(out, &chars_of(v[i].as_str()));
        i += 1;
        assert(vv.take(i as int) =~= vv.take(i - 1).push(vv[i - 1]));
    }
    assert(vv.take(vv.len() as int) =~= vv);
}

fn title_chars(name: &str, accent: crate::ui::theme::Rgb, n: usize, p: Palette) -> (r: Vec<char>)
    ensures
        r@ == hello_title(name@, accent, n as nat, p.colored()),
{
    let mut t: Vec<char> = Vec::new();
    push_str(&mut t, "  ");
    push_str(&mut t, p.bold(name, accent).as_str());
    push_str(&mut t, "  ");
    let mut size = dec_chars(n as u64);
    push_str(&mut size, " bytes");
    push_str(&mut t, p.dim(crate::util::text::string_of(&size).as_str(), pal::steel()).as_str());
    assert(t@ =~= hello_title(name@, accent, n as nat, p.colored()));
    t
}

/// Render the raw section.
pub fn render_raw(raw: &RawHex, p: Palette) -> (r: Vec<Line>)
    ensures
        lines_view(r@) == raw_text(*raw, p.colored()).map_values(|t: Seq<char>| text_line(t)),
{
    let ch = bytes_of(&raw.client_hello_hex);
    let sh = bytes_of(&raw.server_hello_hex);
    let mut out: Vec<Line> = Vec::new();
    let empty: Vec<char> = Vec::new();
    push_chars(&mut out, &empty);
    push_chars(&mut out, &title_chars("client hello", pal::cyan(), ch.len(), p));
    push_strings(&mut out, &hexdump(ch.as_slice()));
    push_chars(&mut out, &empty);
    let mut d: Vec<char> = Vec::new();
    push_str(&mut d, "  ");
    push_str(&mut d, p.bold("decoded", pal::mist()).as_str());
    push_chars(&mut out, &d);
    let ls = split_lines(raw.client_hello_parsed.as_str());
    let ghost dv = vec_views(ls@).map_values(|l: Seq<char>| decoded_line(l, p.colored()));
    let ghost base = lines_view(out@);
    let mut i: usize = 0;
    while i < ls.len()
        invariant
            i <= ls@.len(),
            dv == vec_views(ls@).map_values(|l: Seq<char>| decoded_line(l, p.colored())),
            lines_view(out@) == base + dv.take(i as int).map_values(|t: Seq<char>| text_line(t)),
        decreases ls.len() - i,
    {
        let (k, v) = split_kv(&ls[i]);
        let mut l: Vec<char> = Vec::new();
        push_str(&mut l, "  ");
        push_str(&mut l, p.dim(glyph::LEAD, pal::steel()).as_str());
        push_str(&mut l, " ");
        push_str(&mut l, pad_right(p.dim(k.as_str(), pal::mist()).as_str(), 18).as_str());
        push_str(&mut l, " ");
        push_str(&mut l, p.paint(v.as_str(), pal::chrome()).as_str());
        assert(l@ =~= decoded_line(ls@[i as int]@, p.colored()));
        push_chars(&mut out, &l);
        i += 1;
        assert(dv.take(i as int).map_values(|t: Seq<char>| text_line(t)) =~= dv.take(i - 1).map_values(
            |t: Seq<char>| text_line(t),
        ).push(text_line(dv[i - 1])));
    }
    assert(dv.take(dv.len() as int) =~= dv);
    push_chars(&mut out, &empty);
    push_chars(&mut out, &title_chars("server hello", pal::amber(), sh.len(), p));
    push_strings(&mut out, &hexdump(sh.as_slice()));
    assert(lines_view(out@) =~= raw_text(*raw, p.colored()).map_values(|t: Seq<char>| text_line(t)));
    out
}

} // verus!
