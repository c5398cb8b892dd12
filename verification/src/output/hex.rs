//! Hex dump for `--raw`: sixteen bytes a line, each line led by its
//! offset.
//!
//! ```text
//! 0000  16 03 01 00 f1 01 00 00 ed 03 03 8b 4a 2c 19 f0
//! ```

use crate::output::human::cells::{join_spec, pad_left_spec};
use crate::ui::panel::repeat;
use crate::util::text::{hex2, hex_digit, hex_digit_char, push_all, push_hex2, string_of};
use vstd::prelude::*;

verus! {

/// Lowercase hexadecimal digits of `n` (`{:x}`).
pub open spec fn hex_nat(n: nat) -> Seq<char>
    decreases n,
{
    if n < 16 {
        seq![hex_digit(n as int)]
    } else {
        hex_nat(n / 16).push(hex_digit((n % 16) as int))
    }
}

/// An offset as at least four hex digits, zero-padded (`{:04x}`).
pub open spec fn offset_text(n: nat) -> Seq<char> {
    let d = hex_nat(n);
    if d.len() < 4 {
        repeat('0', (4 - d.len()) as nat) + d
    } else {
        d
    }
}

/// The hex pairs of `bytes`, one per byte.
pub open spec fn byte_pairs(bytes: Seq<u8>) -> Seq<Seq<char>> {
    bytes.map_values(|b: u8| hex2(b))
}

/// Line `i` of the dump of `data`: its offset, two spaces, its bytes in
/// hex separated by single spaces.
pub open spec fn dump_line(data: Seq<u8>, i: nat) -> Seq<char> {
    let start = 16 * i;
    let end = if start + 16 <= data.len() { start + 16 } else { data.len() };
    offset_text(start) + "  "@ + join_spec(byte_pairs(data.subrange(start as int, end as int)), " "@)
}

/// How many lines the dump of `n` bytes has.
pub open spec fn dump_line_count(n: nat) -> nat {
    (n + 15) / 16
}

/// The lines of the dump of `data`.
pub open spec fn dump_lines(data: Seq<u8>) -> Seq<Seq<char>> {
    Seq::new(dump_line_count(data.len()), |i: int| dump_line(data, i as nat))
}

/// Every line of `lines` followed by a newline.
pub open spec fn with_newlines(lines: Seq<Seq<char>>) -> Seq<char>
    decreases lines.len(),
{
    if lines.len() == 0 {
        Seq::empty()
    } else {
        with_newlines(lines.drop_last()) + lines.last() + "\n"@
    }
}

fn hex_chars(n: usize) -> (r: Vec<char>)
    ensures
        r@ == hex_nat(n as nat),
    decreases n,
{
    if n < 16 {
        let mut v: Vec<char> = Vec::new();
        v.push(hex_digit_char(n as u8));
        v
    } else {
        let mut v = hex_chars(n / 16);
        v.push(hex_digit_char((n % 16) as u8));
        v
    }
}

fn dump_one(data: &[u8], i: usize, start: usize) -> (r: Vec<char>)
    requires
        start == 16 * i,
        start < data@.len(),
    ensures
        r@ == dump_line(data@, i as nat),
{
    let end = if data.len() - start >= 16 { start + 16 } else { data.len() };
    let mut line: Vec<char> = Vec::new();
    let d = hex_chars(start);
    if d.len() < 4 {
        let mut z: usize = 0;
        while z < 4 - d.len()
            invariant
                d@.len() < 4,
                z <= 4 - d@.len(),
                line@ == repeat('0', z as nat),
            decreases 4 - d.len() - z,
        {
            line.push('0');
            z += 1;
            assert(line@ =~= repeat('0', z as nat));
        }
    }
    push_all(&mut line, &d);
    assert(line@ =~= offset_text(start as nat));
    line.push(' ');
    line.push(' ');
    let ghost head = line@;
    let ghost pairs = byte_pairs(data@.subrange(start as int, end as int));
    let mut j: usize = start;
    assert(pairs.take(0) =~= Seq::<Seq<char>>::empty());
    while j < end
        invariant
            start <= j <= end <= data@.len(),
            end - start <= 16,
            pairs == byte_pairs(data@.subrange(start as int, end as int)),
            line@ == head + join_spec(pairs.take(j - start), " "@),
        decreases end - j,
    {
        assert(pairs.take(j - start + 1).drop_last() =~= pairs.take(j - start));
        assert(pairs.take(j - start + 1).last() == hex2(data@[j as int]));
        if j > start {
            line.push(' ');
        }
        push_hex2(&mut line, data[j]);
        proof {
            reveal_strlit(" ");
        }
        assert(line@ =~= head + join_spec(pairs.take(j - start + 1), " "@));
        j += 1;
    }
    assert(pairs.take(end - start) =~= pairs);
    proof {
        reveal_strlit("  ");
    }
    assert(line@ =~= dump_line(data@, i as nat));
    line
}

/// The dump of `data`, line by line.
pub fn hexdump(data: &[u8]) -> (r: Vec<String>)
    ensures
        r@.map_values(|s: String| s@) == dump_lines(data@),
{
    let mut out: Vec<String> = Vec::new();
    let mut i: usize = 0;
    let len = data.len();
    let n: usize = len / 16 + if len % 16 == 0 { 0 } else { 1 };
    assert(n == dump_line_count(len as nat));
    while i < n
        invariant
            i <= n,
            len == data@.len(),
            n == len / 16 + if len % 16 == 0 { 0int } else { 1int },
            n == dump_line_count(len as nat),
            out@.map_values(|s: String| s@) == dump_lines(data@).take(i as int),
        decreases n - i,
    {
        assert(16 * i < len) by (nonlinear_arith)
            requires
                i < n,
                n == len / 16 + if len % 16 == 0 { 0int } else { 1int },
        ;
        let ghost before = out@.map_values(|s: String| s@);
        let l = dump_one(data, i, 16 * i);
        let s = string_of(&l);
        out.push(s);
        assert(out@.map_values(|s: String| s@) =~= before.push(s@));
        assert(dump_lines(data@)[i as int] == dump_line(data@, i as nat));
        assert(out@.map_values(|s: String| s@) =~= dump_lines(data@).take(i + 1));
        i += 1;
    }
    assert(dump_lines(data@).take(n as int) =~= dump_lines(data@));
    out
}

/// The dump of `data` as one string, every line ending in a newline.
pub fn hexdump_to_string(data: &[u8]) -> (r: String)
    ensures
        r@ == with_newlines(dump_lines(data@)),
{
    let lines = hexdump(data);
    let ghost lv = lines@.map_values(|s: String| s@);
    let mut out: Vec<char> = Vec::new();
    let mut i: usize = 0;
    assert(lv.take(0) =~= Seq::<Seq<char>>::empty());
    while i < lines.len()
        invariant
            i <= lines@.len(),
            lv == lines@.map_values(|s: String| s@),
            out@ == with_newlines(lv.take(i as int)),
        decreases lines.len() - i,
    {
        assert(lv.take(i + 1).drop_last() =~= lv.take(i as int));
        crate::util::text::push_str(&mut out, lines[i].as_str());
        out.push('\n');
        proof {
            reveal_strlit("\n");
        }
        assert(out@ =~= with_newlines(lv.take(i + 1)));
        i += 1;
    }
    assert(lv.take(lv.len() as int) =~= lv);
    string_of(&out)
}

} // verus!
