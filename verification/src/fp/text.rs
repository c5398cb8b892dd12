//! Text pieces shared by the fingerprint formats.

use crate::tls::extensions::{exts_view, ext_type_of, ExtV, Extension};
use crate::util::text::{dec, dec_chars, digit, push_all};
use vstd::prelude::*;

verus! {

/// Decimal renderings of `s`, separated by `sep`.
pub open spec fn dec_join(s: Seq<nat>, sep: char) -> Seq<char>
    decreases s.len(),
{
    if s.len() == 0 {
        Seq::empty()
    } else if s.len() == 1 {
        dec(s[0])
    } else {
        dec_join(s.drop_last(), sep) + seq![sep] + dec(s.last())
    }
}

/// `u16` values as naturals.
pub open spec fn nats16(s: Seq<u16>) -> Seq<nat> {
    s.map_values(|v: u16| v as nat)
}

/// `u8` values as naturals.
pub open spec fn nats8(s: Seq<u8>) -> Seq<nat> {
    s.map_values(|v: u8| v as nat)
}

/// The type ids of the extensions, in order.
pub open spec fn ext_types(exts: Seq<ExtV>) -> Seq<u16> {
    exts.map_values(|e: ExtV| ext_type_of(e))
}

/// Two decimal digits, zero-padded (`{:02}`), for `n < 100`.
pub open spec fn two_digits(n: nat) -> Seq<char> {
    if n < 10 {
        seq!['0', digit(n as int)]
    } else {
        seq![digit((n / 10) as int), digit((n % 10) as int)]
    }
}

/// Appends the decimal renderings of `vals` separated by `sep`.
pub fn push_dec_join16(out: &mut Vec<char>, vals: &Vec<u16>, sep: char)
    ensures
        final(out)@ == old(out)@ + dec_join(nats16(vals@), sep),
{
    let mut i: usize = 0;
    while i < vals.len()
        invariant
            i <= vals@.len(),
            out@ == old(out)@ + dec_join(nats16(vals@.take(i as int)), sep),
        decreases vals.len() - i,
    {
        if i > 0 {
            out.push(sep);
        }
        let d = dec_chars(vals[i] as u64);
        push_all(out, &d);
        proof {
            let t = nats16(vals@.take(i + 1));
            assert(t.drop_last() =~= nats16(vals@.take(i as int)));
            assert(t.last() == vals@[i as int] as nat);
            if i == 0 {
                assert(nats16(vals@.take(0)) =~= Seq::<nat>::empty());
            }
        }
        i += 1;
    }
    assert(vals@.take(vals@.len() as int) =~= vals@);
}

/// Appends the decimal renderings of `vals` separated by `sep`.
pub fn push_dec_join8(out: &mut Vec<char>, vals: &Vec<u8>, sep: char)
    ensures
        final(out)@ == old(out)@ + dec_join(nats8(vals@), sep),
{
    let mut i: usize = 0;
    while i < vals.len()
        invariant
            i <= vals@.len(),
            out@ == old(out)@ + dec_join(nats8(vals@.take(i as int)), sep),
        decreases vals.len() - i,
    {
        if i > 0 {
            out.push(sep);
        }
        let d = dec_chars(vals[i] as u64);
        push_all(out, &d);
        proof {
            let t = nats8(vals@.take(i + 1));
            assert(t.drop_last() =~= nats8(vals@.take(i as int)));
            assert(t.last() == vals@[i as int] as nat);
            if i == 0 {
                assert(nats8(vals@.take(0)) =~= Seq::<nat>::empty());
            }
        }
        i += 1;
    }
    assert(vals@.take(vals@.len() as int) =~= vals@);
}

/// The type ids of `exts`, in order.
pub fn ext_type_list(exts: &Vec<Extension>) -> (res: Vec<u16>)
    ensures
        res@ == ext_types(exts_view(exts@)),
{
    let mut out: Vec<u16> = Vec::new();
    let mut i: usize = 0;
    while i < exts.len()
        invariant
            i <= exts@.len(),
            out@ == ext_types(exts_view(exts@)).take(i as int),
        decreases exts.len() - i,
    {
        out.push(exts[i].ext_type());
        i += 1;
        assert(out@ =~= ext_types(exts_view(exts@)).take(i as int));
    }
    assert(ext_types(exts_view(exts@)).take(exts@.len() as int) =~= ext_types(exts_view(exts@)));
    out
}

/// Appends `n` as two zero-padded digits.
pub fn push_two_digits(out: &mut Vec<char>, n: usize)
    requires
        n < 100,
    ensures
        final(out)@ == old(out)@ + two_digits(n as nat),
{
    if n < 10 {
        out.push('0');
        out.push((('0' as u8) + (n as u8)) as char);
    } else {
        out.push((('0' as u8) + ((n / 10) as u8)) as char);
        out.push((('0' as u8) + ((n % 10) as u8)) as char);
    }
}

} // verus!
