//! The capture pipeline: read the records of a capture, reassemble its TCP
//! streams, extract the `ClientHello`s, and rank the clients by address
//! and JA4.

use crate::cli::args::SortBy;
use crate::error::GripError;
use crate::fp::ja3::{compute_ja3, ja3_hash};
use crate::fp::ja4::{compute_ja4, is_ja4_ready, ja4_ready, ja4_string};
use crate::fp::lookup::{db_find, ja4_db, lookup_ja4, same_text};
use crate::output::model::{opt_string, ClientEntry, PcapReport, UNCLASSIFIED};
use crate::pcap::extractor::{extract_client_hellos, hello_views, scan_hellos};
use crate::pcap::reader::{eof_text, magic_mode, magic_text, next_spec, next_view, opened, NextV, PcapReader, PcapReaderV, PcapRecord};
use crate::pcap::reassembly::{holds_segment, insert_spec, reassembled_spec, FlowV, Reassembler, ReassemblerV};
use crate::pcap::tcp::{ipv4_text, parse_ipv4_tcp, tcp_packet_spec, FlowKey};
use crate::pcap::reassembly::lemma_split_stream_rejoins;
use crate::tls::builder::{build_spec, BuilderV};
use crate::tls::client_hello::{ClientHello, ClientHelloV};
use crate::tls::roundtrip::{built_hello, fits_wire, lemma_built_hello_extracted};
use crate::util::text::{chars_of, clone_string, string_of};
use vstd::prelude::*;

verus! {

/// An empty reassembler with the default limits.
pub open spec fn fresh_reassembler() -> ReassemblerV {
    ReassemblerV { flows: Map::empty(), max_flows: 10_000, max_bytes: 1024 * 1024 }
}

/// `r` after offering it the TCP packet in link-layer data `data`, if it
/// holds one.
#[verifier::opaque]
pub open spec fn with_packet(r: ReassemblerV, link: u32, data: Seq<u8>) -> ReassemblerV {
    match tcp_packet_spec(link, data) {
        Some(t) => insert_spec(r, t.key, t.seq, t.payload),
        None => r,
    }
}

/// Whether link-layer data `data` holds a TCP packet.
#[verifier::opaque]
pub open spec fn is_tcp_packet(link: u32, data: Seq<u8>) -> bool {
    tcp_packet_spec(link, data) is Some
}

#[verifier::opaque]
/// Reading the remaining records of `reader` into `r`, counting records
/// (`packets`) and TCP packets (`tcp`); the first error ends it.
pub open spec fn feed(reader: PcapReaderV, r: ReassemblerV, packets: nat, tcp: nat) -> Result<
    (ReassemblerV, nat, nat),
    NextV,
>
    decreases reader.data.len() - reader.pos,
{
    if reader.pos > reader.data.len() {
        Ok((r, packets, tcp))
    } else {
        let (next, item) = next_spec(reader);
        proof {
            reveal(next_spec);
        }
        match item {
            NextV::End => Ok((r, packets, tcp)),
            NextV::Record(rec) => feed(
                next,
                with_packet(r, reader.header.network, rec.data),
                packets + 1,
                if is_tcp_packet(reader.header.network, rec.data) {
                    tcp + 1
                } else {
                    tcp
                },
            ),
            other => Err(other),
        }
    }
}

proof fn lemma_feed_step(reader: PcapReaderV, r: ReassemblerV, packets: nat, tcp: nat)
    requires
        reader.pos <= reader.data.len(),
        next_spec(reader).1 is Record,
    ensures
        ({
            let next = next_spec(reader).0;
            let rec = next_spec(reader).1->Record_0;
            &&& next.pos >= reader.pos + 16
            &&& next.data == reader.data
            &&& next.header == reader.header
            &&& next.pos <= next.data.len()
            &&& feed(reader, r, packets, tcp) == feed(
                next,
                with_packet(r, reader.header.network, rec.data),
                packets + 1,
                if is_tcp_packet(reader.header.network, rec.data) {
                    tcp + 1
                } else {
                    tcp
                },
            )
        }),
{
    reveal(feed);
    reveal(next_spec);
}

proof fn lemma_feed_stop(reader: PcapReaderV, r: ReassemblerV, packets: nat, tcp: nat)
    requires
        reader.pos <= reader.data.len(),
        !(next_spec(reader).1 is Record),
    ensures
        feed(reader, r, packets, tcp) == match next_spec(reader).1 {
            NextV::End => Ok((r, packets, tcp)),
            other => Err::<(ReassemblerV, nat, nat), NextV>(other),
        },
{
    reveal(feed);
}

/// The streams of capture `d`, with its record and TCP packet counts, or
/// the first error.
pub open spec fn capture_spec(d: Seq<u8>) -> Result<(ReassemblerV, nat, nat), NextV> {
    if d.len() < 24 {
        Err(NextV::IoError(eof_text()))
    } else if magic_mode(d) is None {
        Err(NextV::PcapError(magic_text(d)))
    } else {
        feed(opened(d), fresh_reassembler(), 0, 0)
    }
}

/// Read every record of the capture in `data` and reassemble its TCP
/// streams; also counts the records and the TCP packets among them.
/// Offer the TCP packet of record `rec` (link type `link`), if it holds
/// one, to `r`; says whether it did.
fn add_packet(r: &mut Reassembler, link: u32, rec: &PcapRecord) -> (is_tcp: bool)
    requires
        old(r).wf(),
    ensures
        final(r).wf(),
        is_tcp == is_tcp_packet(link, rec.data@),
        final(r)@ == with_packet(old(r)@, link, rec.data@),
{
    proof {
        reveal(with_packet);
        reveal(is_tcp_packet);
    }
    match parse_ipv4_tcp(link, rec.data.as_slice()) {
        Some(flow) => {
            r.insert(flow.key, flow.segment);
            true
        },
        None => false,
    }
}

pub fn reassemble_capture(data: Vec<u8>) -> (res: Result<(Reassembler, usize, usize), GripError>)
    ensures
        match res {
            Ok((r, packets, tcp)) => r.wf() && capture_spec(data@) == Ok::<(ReassemblerV, nat, nat), NextV>(
                (r@, packets as nat, tcp as nat),
            ),
            Err(e) => capture_spec(data@) == Err::<(ReassemblerV, nat, nat), NextV>(next_view(Some(Err(e)))),
        },
{
    let ghost d = data@;
    assert(d.len() == data.len());
    let mut reader = match PcapReader::new(data) {
        Ok(r) => r,
        Err(e) => {
            return Err(e);
        },
    };
    let link = reader.header().network;
    let mut r = Reassembler::new();
    let mut packets: usize = 0;
    let mut tcp: usize = 0;
    assert(r@ == fresh_reassembler());
    loop
        invariant
            r.wf(),
            d == data@,
            d.len() <= usize::MAX,
            reader@.data == d,
            reader@.pos <= d.len(),
            reader@.header.network == link,
            packets * 16 + 24 <= reader@.pos,
            tcp <= packets,
            capture_spec(d) == feed(reader@, r@, packets as nat, tcp as nat),
        decreases d.len() - reader@.pos,
    {
        let ghost before = reader@;
        let item = reader.next();
        assert(next_view(item) == next_spec(before).1);
        proof {
            if !(next_spec(before).1 is Record) {
                lemma_feed_stop(before, r@, packets as nat, tcp as nat);
            }
        }
        match item {
            None => {
                return Ok((r, packets, tcp));
            },
            Some(Err(e)) => {
                return Err(e);
            },
            Some(Ok(rec)) => {
                proof {
                    lemma_feed_step(before, r@, packets as nat, tcp as nat);
                }
                packets += 1;
                if add_packet(&mut r, link, &rec) {
                    tcp += 1;
                }
            },
        }
    }
}

/// What a handshake hit holds: the client address text and its hello.
pub open spec fn hit_views(v: Seq<(String, ClientHello)>) -> Seq<(Seq<char>, ClientHelloV)> {
    v.map_values(|h: (String, ClientHello)| (h.0@, h.1@))
}

/// Whether the optional address filter lets `ip` through.
pub open spec fn passes(filter: Option<Seq<char>>, ip: Seq<char>) -> bool {
    match filter {
        Some(f) => f == ip,
        None => true,
    }
}

/// The hellos of flow `k`, each with its source address, when the filter
/// lets that address through.
pub open spec fn flow_hits(r: ReassemblerV, k: FlowKey, filter: Option<Seq<char>>) -> Seq<(Seq<char>, ClientHelloV)> {
    if !passes(filter, ipv4_text(k.src_ip)) {
        Seq::empty()
    } else {
        match reassembled_spec(r, k) {
            Some(s) => scan_hellos(s, 0).map_values(|ch: ClientHelloV| (ipv4_text(k.src_ip), ch)),
            None => Seq::empty(),
        }
    }
}

/// The hits of the flows `keys`, in that order.
pub open spec fn hits_of(r: ReassemblerV, keys: Seq<FlowKey>, filter: Option<Seq<char>>) -> Seq<
    (Seq<char>, ClientHelloV),
>
    decreases keys.len(),
{
    if keys.len() == 0 {
        Seq::empty()
    } else {
        hits_of(r, keys.drop_last(), filter) + flow_hits(r, keys.last(), filter)
    }
}

/// A `ClientHello` split over two TCP segments of a new flow is not
/// missed: whichever part arrives first, the flow's hits are exactly that
/// hello from the flow's source address (when the flow fits the limits
/// and the sequence numbers do not wrap).
pub proof fn lemma_fragmented_hello_found(r: ReassemblerV, key: FlowKey, seq: u32, b: BuilderV, k: int)
    requires
        fits_wire(b),
        !r.flows.contains_key(key),
        r.flows.len() < r.max_flows,
        build_spec(b).len() <= r.max_bytes,
        0 < k < build_spec(b).len(),
        seq + build_spec(b).len() <= u32::MAX,
    ensures
        ({
            let p = build_spec(b);
            let head_first = insert_spec(insert_spec(r, key, seq, p.take(k)), key, (seq + k) as u32, p.skip(k));
            let tail_first = insert_spec(insert_spec(r, key, (seq + k) as u32, p.skip(k)), key, seq, p.take(k));
            &&& flow_hits(head_first, key, None) == seq![(ipv4_text(key.src_ip), built_hello(b))]
            &&& flow_hits(tail_first, key, None) == seq![(ipv4_text(key.src_ip), built_hello(b))]
        }),
{
    let p = build_spec(b);
    let s2 = (seq + k) as u32;
    lemma_split_stream_rejoins(r, key, seq, p, k);
    crate::pcap::reassembly::lemma_insert_order_free(r, key, seq, p.take(k), s2, p.skip(k), key);
    lemma_built_hello_extracted(b);
    let h = seq![built_hello(b)];
    assert(h.map_values(|ch: ClientHelloV| (ipv4_text(key.src_ip), ch)) =~= seq![
        (ipv4_text(key.src_ip), built_hello(b)),
    ]);
}

/// The view of an optional string.
pub open spec fn opt_view(o: Option<&str>) -> Option<Seq<char>> {
    match o {
        Some(s) => Some(s@),
        None => None,
    }
}

/// Every `ClientHello` of every reassembled flow, with the flow's source
/// address, the flows taken in some order (each once); `filter` keeps only
/// one source address.
pub fn capture_hits(r: &Reassembler, filter: Option<&str>) -> (res: Vec<(String, ClientHello)>)
    requires
        r.wf(),
    ensures
        exists|keys: Seq<FlowKey>|
            {
                &&& keys.no_duplicates()
                &&& forall|k: FlowKey|
                    #![trigger keys.contains(k)]
                    #![trigger r@.flows[k]]
                    keys.contains(k) <==> (r@.flows.dom().contains(k) && holds_segment(r@.flows[k]))
                &&& hit_views(res@) == hits_of(r@, keys, opt_view(filter))
            },
{
    let keys = r.flow_keys();
    let mut out: Vec<(String, ClientHello)> = Vec::new();
    let mut i: usize = 0;
    assert(keys@.take(0) =~= Seq::<FlowKey>::empty());
    while i < keys.len()
        invariant
            r.wf(),
            i <= keys@.len(),
            keys@.no_duplicates(),
            forall|k: FlowKey|
                #![trigger keys@.contains(k)]
                #![trigger r@.flows[k]]
                keys@.contains(k) <==> (r@.flows.dom().contains(k) && holds_segment(r@.flows[k])),
            hit_views(out@) == hits_of(r@, keys@.take(i as int), opt_view(filter)),
        decreases keys.len() - i,
    {
        let key = keys[i];
        assert(keys@.take(i + 1).drop_last() =~= keys@.take(i as int));
        assert(keys@.take(i + 1).last() == key);
        let ghost prev = hit_views(out@);
        let ip = key.src_ip.to_text();
        let keep = match filter {
            Some(f) => same_text(f, ip.as_str()),
            None => true,
        };
        if keep {
            match r.reassembled(&key) {
                Some(stream) => {
                    let mut hellos = extract_client_hellos(stream.as_slice());
                    let ghost all = hello_views(hellos@);
                    let ghost ipv = ip@;
                    let n0 = hellos.len();
                    let mut j: usize = 0;
                    assert(all.skip(0) =~= all);
                    while hellos.len() > 0
                        invariant
                            j <= all.len(),
                            all.len() == n0,
                            j + hellos@.len() == n0,
                            hello_views(hellos@) == all.skip(j as int),
                            ip@ == ipv,
                            hit_views(out@) == prev + all.take(j as int).map_values(
                                |ch: ClientHelloV| (ipv, ch),
                            ),
                        decreases hellos.len(),
                    {
                        assert(all.skip(j as int).len() > 0);
                        let ghost old_hellos = hellos@;
                        assert(hello_views(old_hellos)[0] == old_hellos[0]@);
                        let ch = hellos.remove(0);
                        assert(ch@ == all[j as int]);
                        let ghost before_out = hit_views(out@);
                        out.push((clone_string(&ip), ch));
                        assert(hit_views(out@) =~= before_out.push((ipv, all[j as int])));
                        assert(all.take(j + 1).map_values(|ch: ClientHelloV| (ipv, ch)) =~= all.take(
                            j as int,
                        ).map_values(|ch: ClientHelloV| (ipv, ch)).push((ipv, all[j as int])));
                        assert(hellos@ =~= old_hellos.remove(0));
                        assert(hello_views(hellos@) =~= hello_views(old_hellos).drop_first());
                        assert(all.skip(j as int).drop_first() =~= all.skip(j + 1));
                        j += 1;
                        assert(hit_views(out@) =~= prev + all.take(j as int).map_values(
                            |ch: ClientHelloV| (ipv, ch),
                        ));
                    }
                    assert(all.skip(j as int).len() == 0);
                    assert(all.take(j as int) =~= all);
                },
                None => {
                    assert(hit_views(out@) =~= prev + Seq::<(Seq<char>, ClientHelloV)>::empty());
                },
            }
        } else {
            assert(hit_views(out@) =~= prev + Seq::<(Seq<char>, ClientHelloV)>::empty());
        }
        i += 1;
    }
    assert(keys@.take(keys@.len() as int) =~= keys@);
    out
}

/// What a report row holds.
pub struct EntryV {
    pub ip: Seq<char>,
    pub ja4: Seq<char>,
    pub ja3: Option<Seq<char>>,
    pub client: Option<Seq<char>>,
    pub count: nat,
}

/// The view of a row.
pub open spec fn entry_view(e: ClientEntry) -> EntryV {
    EntryV { ip: e.ip@, ja4: e.ja4@, ja3: opt_string(e.ja3), client: opt_string(e.client), count: e.count as nat }
}

/// The views of rows.
pub open spec fn entry_views(v: Seq<ClientEntry>) -> Seq<EntryV> {
    v.map_values(|e: ClientEntry| entry_view(e))
}

/// The client name a lookup gives for a JA4: the table's name, or
/// `unclassified`.
pub open spec fn client_name(ja4: Seq<char>) -> Seq<char> {
    match db_find(ja4_db(), ja4) {
        Some(n) => n,
        None => UNCLASSIFIED@,
    }
}

/// The first row of a handshake from `ip` with hello `ch`.
pub open spec fn new_entry(ip: Seq<char>, ch: ClientHelloV, want_ja3: bool, lookup: bool) -> EntryV {
    let j4 = ja4_string(ch);
    EntryV {
        ip,
        ja4: j4,
        ja3: if want_ja3 {
            Some(ja3_hash(ch))
        } else {
            None
        },
        client: if lookup {
            Some(client_name(j4))
        } else {
            None
        },
        count: 1,
    }
}

/// The first row from `i` on with this address and JA4.
pub open spec fn find_row(es: Seq<EntryV>, ip: Seq<char>, ja4: Seq<char>, i: int) -> Option<int>
    decreases es.len() - i,
{
    if i < 0 || i >= es.len() {
        None
    } else if es[i].ip == ip && es[i].ja4 == ja4 {
        Some(i)
    } else {
        find_row(es, ip, ja4, i + 1)
    }
}

/// Rows per (address, JA4) pair, in order of first appearance, each
/// counting its handshakes; JA3 and client name come from the first.
pub open spec fn tally(hits: Seq<(Seq<char>, ClientHelloV)>, want_ja3: bool, lookup: bool) -> Seq<EntryV>
    decreases hits.len(),
{
    if hits.len() == 0 {
        Seq::empty()
    } else {
        let prev = tally(hits.drop_last(), want_ja3, lookup);
        let (ip, ch) = hits.last();
        match find_row(prev, ip, ja4_string(ch), 0) {
            Some(i) => prev.update(i, EntryV { count: prev[i].count + 1, ..prev[i] }),
            None => prev.push(new_entry(ip, ch, want_ja3, lookup)),
        }
    }
}

/// Lexicographic order of texts by character (the order of `String`).
pub open spec fn text_lt(a: Seq<char>, b: Seq<char>) -> bool
    decreases a.len(),
{
    if a.len() == 0 {
        b.len() > 0
    } else if b.len() == 0 {
        false
    } else if a[0] != b[0] {
        (a[0] as u32) < (b[0] as u32)
    } else {
        text_lt(a.drop_first(), b.drop_first())
    }
}

/// The first row from `i` on with this JA4.
pub open spec fn find_ja4_row(es: Seq<EntryV>, ja4: Seq<char>, i: int) -> Option<int>
    decreases es.len() - i,
{
    if i < 0 || i >= es.len() {
        None
    } else if es[i].ja4 == ja4 {
        Some(i)
    } else {
        find_ja4_row(es, ja4, i + 1)
    }
}

/// One row per JA4, in order of first appearance: counts add up, the
/// address is the smallest, JA3 and client name come from the first.
pub open spec fn merge_by_ja4(es: Seq<EntryV>) -> Seq<EntryV>
    decreases es.len(),
{
    if es.len() == 0 {
        Seq::empty()
    } else {
        let prev = merge_by_ja4(es.drop_last());
        let e = es.last();
        match find_ja4_row(prev, e.ja4, 0) {
            Some(i) => prev.update(
                i,
                EntryV {
                    count: prev[i].count + e.count,
                    ip: if text_lt(e.ip, prev[i].ip) {
                        e.ip
                    } else {
                        prev[i].ip
                    },
                    ..prev[i]
                },
            ),
            None => prev.push(e),
        }
    }
}

/// Whether row `a` sorts strictly before row `b`.
pub open spec fn sorts_before(a: EntryV, b: EntryV, by: SortBy) -> bool {
    match by {
        SortBy::Count => a.count > b.count || (a.count == b.count && text_lt(a.ip, b.ip)),
        SortBy::Ip => text_lt(a.ip, b.ip),
        SortBy::Fingerprint => text_lt(a.ja4, b.ja4),
    }
}

/// The first position in `s` whose row `x` sorts before (or the end).
pub open spec fn slot_for(s: Seq<EntryV>, x: EntryV, by: SortBy, i: int) -> int
    decreases s.len() - i,
{
    if i < 0 || i >= s.len() {
        s.len() as int
    } else if sorts_before(x, s[i], by) {
        i
    } else {
        slot_for(s, x, by, i + 1)
    }
}

/// Stable sort: each row goes after every earlier row it does not sort
/// before.
pub open spec fn stable_sort(s: Seq<EntryV>, by: SortBy) -> Seq<EntryV>
    decreases s.len(),
{
    if s.len() == 0 {
        Seq::empty()
    } else {
        let t = stable_sort(s.drop_last(), by);
        t.insert(slot_for(t, s.last(), by, 0), s.last())
    }
}

/// The rows of the capture report for `hits`.
pub open spec fn rank_spec(
    hits: Seq<(Seq<char>, ClientHelloV)>,
    want_ja3: bool,
    lookup: bool,
    unique: bool,
    by: SortBy,
) -> Seq<EntryV> {
    let rows = tally(hits, want_ja3, lookup);
    stable_sort(if unique { merge_by_ja4(rows) } else { rows }, by)
}

/// Sum of the counts of rows.
pub open spec fn total_count(es: Seq<EntryV>) -> nat
    decreases es.len(),
{
    if es.len() == 0 {
        0
    } else {
        total_count(es.drop_last()) + es.last().count
    }
}

proof fn lemma_text_lt_trans(a: Seq<char>, b: Seq<char>, c: Seq<char>)
    requires
        text_lt(a, b),
        text_lt(b, c),
    ensures
        text_lt(a, c),
    decreases a.len(),
{
    if a.len() > 0 && b.len() > 0 && c.len() > 0 && a[0] == b[0] && b[0] == c[0] {
        lemma_text_lt_trans(a.drop_first(), b.drop_first(), c.drop_first());
    }
}

proof fn lemma_text_lt_irrefl(a: Seq<char>)
    ensures
        !text_lt(a, a),
    decreases a.len(),
{
    if a.len() > 0 {
        lemma_text_lt_irrefl(a.drop_first());
    }
}

proof fn lemma_sorts_before_trans(a: EntryV, b: EntryV, c: EntryV, by: SortBy)
    requires
        sorts_before(a, b, by),
        sorts_before(b, c, by),
    ensures
        sorts_before(a, c, by),
{
    match by {
        SortBy::Count => {
            if a.count == b.count && b.count == c.count {
                lemma_text_lt_trans(a.ip, b.ip, c.ip);
            }
        },
        SortBy::Ip => lemma_text_lt_trans(a.ip, b.ip, c.ip),
        SortBy::Fingerprint => lemma_text_lt_trans(a.ja4, b.ja4, c.ja4),
    }
}

/// Whether no row of `s` sorts strictly before an earlier one.
pub open spec fn ranked(s: Seq<EntryV>, by: SortBy) -> bool {
    forall|i: int, j: int| 0 <= i < j < s.len() ==> !sorts_before(#[trigger] s[j], #[trigger] s[i], by)
}

proof fn lemma_slot(s: Seq<EntryV>, x: EntryV, by: SortBy, i: int)
    requires
        0 <= i <= s.len(),
    ensures
        i <= slot_for(s, x, by, i) <= s.len(),
        forall|k: int| i <= k < slot_for(s, x, by, i) ==> !sorts_before(x, #[trigger] s[k], by),
        slot_for(s, x, by, i) < s.len() ==> sorts_before(x, s[slot_for(s, x, by, i)], by),
    decreases s.len() - i,
{
    if i < s.len() && !sorts_before(x, s[i], by) {
        lemma_slot(s, x, by, i + 1);
    }
}

proof fn lemma_stable_sort_ranked(s: Seq<EntryV>, by: SortBy)
    ensures
        ranked(stable_sort(s, by), by),
        stable_sort(s, by).len() == s.len(),
    decreases s.len(),
{
    if s.len() > 0 {
        let t = stable_sort(s.drop_last(), by);
        lemma_stable_sort_ranked(s.drop_last(), by);
        let x = s.last();
        lemma_slot(t, x, by, 0);
        let p = slot_for(t, x, by, 0);
        let u = t.insert(p, x);
        assert forall|i: int, j: int| 0 <= i < j < u.len() implies !sorts_before(#[trigger] u[j], #[trigger] u[i], by) by {
            if j < p {
                assert(u[i] == t[i] && u[j] == t[j]);
            } else if j == p {
                assert(u[i] == t[i]);
            } else if i == p {
                assert(u[j] == t[j - 1]);
                if sorts_before(t[j - 1], x, by) {
                    assert(p < t.len());
                    lemma_sorts_before_trans(t[j - 1], x, t[p], by);
                    if j - 1 == p {
                        lemma_irrefl(t[p], by);
                    }
                }
            } else if i < p {
                assert(u[i] == t[i] && u[j] == t[j - 1]);
            } else {
                assert(u[i] == t[i - 1] && u[j] == t[j - 1]);
            }
        }
    }
}

proof fn lemma_irrefl(a: EntryV, by: SortBy)
    ensures
        !sorts_before(a, a, by),
{
    lemma_text_lt_irrefl(a.ip);
    lemma_text_lt_irrefl(a.ja4);
}

/// The key that tells rows apart: the JA4 alone with `unique`, else the
/// address and the JA4.
pub open spec fn row_key(e: EntryV, unique: bool) -> (Seq<char>, Seq<char>) {
    if unique {
        (Seq::empty(), e.ja4)
    } else {
        (e.ip, e.ja4)
    }
}

/// Whether no two rows of `s` share a key.
pub open spec fn keys_distinct(s: Seq<EntryV>, unique: bool) -> bool {
    forall|i: int, j: int| 0 <= i < j < s.len() ==> row_key(#[trigger] s[i], unique) != row_key(#[trigger] s[j], unique)
}

proof fn lemma_find_row(es: Seq<EntryV>, ip: Seq<char>, ja4: Seq<char>, i: int)
    requires
        0 <= i,
    ensures
        match find_row(es, ip, ja4, i) {
            Some(k) => i <= k < es.len() && es[k].ip == ip && es[k].ja4 == ja4,
            None => forall|k: int| i <= k < es.len() ==> !(es[k].ip == ip && es[k].ja4 == ja4),
        },
    decreases es.len() - i,
{
    if i < es.len() && !(es[i].ip == ip && es[i].ja4 == ja4) {
        lemma_find_row(es, ip, ja4, i + 1);
    }
}

proof fn lemma_find_ja4_row(es: Seq<EntryV>, ja4: Seq<char>, i: int)
    requires
        0 <= i,
    ensures
        match find_ja4_row(es, ja4, i) {
            Some(k) => i <= k < es.len() && es[k].ja4 == ja4,
            None => forall|k: int| i <= k < es.len() ==> es[k].ja4 != ja4,
        },
    decreases es.len() - i,
{
    if i < es.len() && es[i].ja4 != ja4 {
        lemma_find_ja4_row(es, ja4, i + 1);
    }
}

proof fn lemma_tally_distinct(hits: Seq<(Seq<char>, ClientHelloV)>, want_ja3: bool, lookup: bool)
    ensures
        keys_distinct(tally(hits, want_ja3, lookup), false),
    decreases hits.len(),
{
    if hits.len() > 0 {
        lemma_tally_distinct(hits.drop_last(), want_ja3, lookup);
        let prev = tally(hits.drop_last(), want_ja3, lookup);
        let (ip, ch) = hits.last();
        lemma_find_row(prev, ip, ja4_string(ch), 0);
        let t = tally(hits, want_ja3, lookup);
        match find_row(prev, ip, ja4_string(ch), 0) {
            Some(k) => {
                assert forall|i: int, j: int| 0 <= i < j < t.len() implies row_key(#[trigger] t[i], false) != row_key(
                    #[trigger] t[j],
                    false,
                ) by {
                    assert(row_key(t[i], false) == row_key(prev[i], false));
                    assert(row_key(t[j], false) == row_key(prev[j], false));
                }
            },
            None => {
                assert forall|i: int, j: int| 0 <= i < j < t.len() implies row_key(#[trigger] t[i], false) != row_key(
                    #[trigger] t[j],
                    false,
                ) by {
                    if j < prev.len() {
                        assert(t[i] == prev[i] && t[j] == prev[j]);
                    } else {
                        assert(t[i] == prev[i]);
                        assert(t[j].ip == ip && t[j].ja4 == ja4_string(ch));
                    }
                }
            },
        }
    }
}

proof fn lemma_merge_distinct(es: Seq<EntryV>)
    ensures
        keys_distinct(merge_by_ja4(es), true),
    decreases es.len(),
{
    if es.len() > 0 {
        lemma_merge_distinct(es.drop_last());
        let prev = merge_by_ja4(es.drop_last());
        let e = es.last();
        lemma_find_ja4_row(prev, e.ja4, 0);
        let t = merge_by_ja4(es);
        match find_ja4_row(prev, e.ja4, 0) {
            Some(k) => {
                assert forall|i: int, j: int| 0 <= i < j < t.len() implies row_key(#[trigger] t[i], true) != row_key(
                    #[trigger] t[j],
                    true,
                ) by {
                    assert(row_key(t[i], true) == row_key(prev[i], true));
                    assert(row_key(t[j], true) == row_key(prev[j], true));
                }
            },
            None => {
                assert forall|i: int, j: int| 0 <= i < j < t.len() implies row_key(#[trigger] t[i], true) != row_key(
                    #[trigger] t[j],
                    true,
                ) by {
                    if j < prev.len() {
                        assert(t[i] == prev[i] && t[j] == prev[j]);
                    } else {
                        assert(t[i] == prev[i]);
                        assert(t[j] == e);
                    }
                }
            },
        }
    }
}

proof fn lemma_sort_keeps_distinct(s: Seq<EntryV>, by: SortBy, unique: bool)
    requires
        keys_distinct(s, unique),
    ensures
        keys_distinct(stable_sort(s, by), unique),
        forall|y: EntryV| stable_sort(s, by).contains(y) ==> s.contains(y),
    decreases s.len(),
{
    if s.len() > 0 {
        let sp = s.drop_last();
        assert forall|i: int, j: int| 0 <= i < j < sp.len() implies row_key(#[trigger] sp[i], unique) != row_key(
            #[trigger] sp[j],
            unique,
        ) by {
            assert(sp[i] == s[i] && sp[j] == s[j]);
        }
        lemma_sort_keeps_distinct(sp, by, unique);
        let t = stable_sort(sp, by);
        let x = s.last();
        lemma_slot(t, x, by, 0);
        let p = slot_for(t, x, by, 0);
        let u = t.insert(p, x);
        assert forall|k: int| 0 <= k < t.len() implies row_key(#[trigger] t[k], unique) != row_key(x, unique) by {
            assert(t.contains(t[k]));
            assert(sp.contains(t[k]));
            let m = choose|m: int| 0 <= m < sp.len() && sp[m] == t[k];
            assert(s[m] == t[k]);
            assert(s[s.len() - 1] == x);
        }
        assert forall|i: int, j: int| 0 <= i < j < u.len() implies row_key(#[trigger] u[i], unique) != row_key(
            #[trigger] u[j],
            unique,
        ) by {
            if j < p {
                assert(u[i] == t[i] && u[j] == t[j]);
            } else if j == p {
                assert(u[i] == t[i]);
            } else if i == p {
                assert(u[j] == t[j - 1]);
            } else if i < p {
                assert(u[i] == t[i] && u[j] == t[j - 1]);
            } else {
                assert(u[i] == t[i - 1] && u[j] == t[j - 1]);
            }
        }
        assert forall|y: EntryV| u.contains(y) implies s.contains(y) by {
            let k = choose|k: int| 0 <= k < u.len() && u[k] == y;
            if k == p {
                assert(s[s.len() - 1] == y);
            } else {
                let kk = if k < p { k } else { k - 1 };
                assert(u[k] == t[kk]);
                assert(t.contains(t[kk]));
                assert(sp.contains(t[kk]));
                let m = choose|m: int| 0 <= m < sp.len() && sp[m] == t[kk];
                assert(s[m] == y);
            }
        }
    }
}

/// The capture report groups handshakes: with `unique` no two rows share
/// a JA4; without it no two rows share both address and JA4.
pub proof fn lemma_rank_groups(
    hits: Seq<(Seq<char>, ClientHelloV)>,
    want_ja3: bool,
    lookup: bool,
    unique: bool,
    by: SortBy,
)
    ensures
        keys_distinct(rank_spec(hits, want_ja3, lookup, unique, by), unique),
{
    let rows = tally(hits, want_ja3, lookup);
    if unique {
        lemma_merge_distinct(rows);
        lemma_sort_keeps_distinct(merge_by_ja4(rows), by, true);
    } else {
        lemma_tally_distinct(hits, want_ja3, lookup);
        lemma_sort_keeps_distinct(rows, by, false);
    }
}

/// The capture report is ranked: no row sorts strictly before an earlier
/// one under the chosen order (most handshakes first, then address; or by
/// address; or by JA4).
pub proof fn lemma_rank_is_ranked(
    hits: Seq<(Seq<char>, ClientHelloV)>,
    want_ja3: bool,
    lookup: bool,
    unique: bool,
    by: SortBy,
)
    ensures
        ranked(rank_spec(hits, want_ja3, lookup, unique, by), by),
{
    let rows = tally(hits, want_ja3, lookup);
    lemma_stable_sort_ranked(if unique { merge_by_ja4(rows) } else { rows }, by);
}

/// Whether `a` sorts strictly before `b` by text.
pub fn text_less(a: &String, b: &String) -> (r: bool)
    ensures
        r == text_lt(a@, b@),
{
    let x = chars_of(a.as_str());
    let y = chars_of(b.as_str());
    let mut i: usize = 0;
    assert(x@.skip(0) =~= x@);
    assert(y@.skip(0) =~= y@);
    while i < x.len() && i < y.len() && x[i] == y[i]
        invariant
            i <= x@.len(),
            i <= y@.len(),
            x@ == a@,
            y@ == b@,
            text_lt(a@, b@) == text_lt(x@.skip(i as int), y@.skip(i as int)),
        decreases x.len() - i,
    {
        assert(x@.skip(i as int).drop_first() =~= x@.skip(i + 1));
        assert(y@.skip(i as int).drop_first() =~= y@.skip(i + 1));
        i += 1;
    }
    if i == x.len() {
        i < y.len()
    } else if i == y.len() {
        false
    } else {
        (x[i] as u32) < (y[i] as u32)
    }
}

fn copy_opt(o: &Option<String>) -> (r: Option<String>)
    ensures
        opt_string(r) == opt_string(*o),
{
    match o {
        Some(s) => Some(clone_string(s)),
        None => None,
    }
}

fn find_row_exec(rows: &Vec<ClientEntry>, ip: &String, ja4: &String) -> (r: Option<usize>)
    ensures
        match r {
            Some(i) => i < rows@.len() && find_row(entry_views(rows@), ip@, ja4@, 0) == Some(i as int),
            None => find_row(entry_views(rows@), ip@, ja4@, 0) is None,
        },
{
    let ghost es = entry_views(rows@);
    let mut i: usize = 0;
    while i < rows.len()
        invariant
            i <= rows@.len(),
            es == entry_views(rows@),
            find_row(es, ip@, ja4@, 0) == find_row(es, ip@, ja4@, i as int),
        decreases rows.len() - i,
    {
        if same_text(rows[i].ip.as_str(), ip.as_str()) && same_text(rows[i].ja4.as_str(), ja4.as_str()) {
            return Some(i);
        }
        i += 1;
    }
    None
}

fn find_ja4_exec(rows: &Vec<ClientEntry>, ja4: &String) -> (r: Option<usize>)
    ensures
        match r {
            Some(i) => i < rows@.len() && find_ja4_row(entry_views(rows@), ja4@, 0) == Some(i as int),
            None => find_ja4_row(entry_views(rows@), ja4@, 0) is None,
        },
{
    let ghost es = entry_views(rows@);
    let mut i: usize = 0;
    while i < rows.len()
        invariant
            i <= rows@.len(),
            es == entry_views(rows@),
            find_ja4_row(es, ja4@, 0) == find_ja4_row(es, ja4@, i as int),
        decreases rows.len() - i,
    {
        if same_text(rows[i].ja4.as_str(), ja4.as_str()) {
            return Some(i);
        }
        i += 1;
    }
    None
}

proof fn lemma_count_le_total(es: Seq<EntryV>, i: int)
    requires
        0 <= i < es.len(),
    ensures
        es[i].count <= total_count(es),
    decreases es.len(),
{
    if i < es.len() - 1 {
        lemma_count_le_total(es.drop_last(), i);
    }
}

proof fn lemma_total_update(es: Seq<EntryV>, i: int, e: EntryV)
    requires
        0 <= i < es.len(),
    ensures
        total_count(es.update(i, e)) == total_count(es) - es[i].count + e.count,
    decreases es.len(),
{
    let t = es.update(i, e);
    if i == es.len() - 1 {
        assert(t.drop_last() =~= es.drop_last());
    } else {
        assert(t.drop_last() =~= es.drop_last().update(i, e));
        lemma_total_update(es.drop_last(), i, e);
    }
}

proof fn lemma_total_push(es: Seq<EntryV>, e: EntryV)
    ensures
        total_count(es.push(e)) == total_count(es) + e.count,
{
    assert(es.push(e).drop_last() =~= es);
}

/// The rows per (address, JA4) pair; every hello must allow JA4.
fn tally_exec(hits: &Vec<(String, ClientHello)>, want_ja3: bool, lookup: bool) -> (res: Vec<ClientEntry>)
    requires
        forall|i: int| 0 <= i < hits@.len() ==> ja4_ready((#[trigger] hits@[i]).1@),
    ensures
        entry_views(res@) == tally(hit_views(hits@), want_ja3, lookup),
        total_count(entry_views(res@)) == hits@.len(),
{
    let mut rows: Vec<ClientEntry> = Vec::new();
    let mut k: usize = 0;
    assert(hit_views(hits@).take(0) =~= Seq::<(Seq<char>, ClientHelloV)>::empty());
    while k < hits.len()
        invariant
            k <= hits@.len(),
            forall|i: int| 0 <= i < hits@.len() ==> ja4_ready((#[trigger] hits@[i]).1@),
            entry_views(rows@) == tally(hit_views(hits@).take(k as int), want_ja3, lookup),
            total_count(entry_views(rows@)) == k,
        decreases hits.len() - k,
    {
        let ghost hv = hit_views(hits@);
        assert(hv.take(k + 1).drop_last() =~= hv.take(k as int));
        assert(hv.take(k + 1).last() == hv[k as int]);
        let ghost prev = entry_views(rows@);
        let ip = &hits[k].0;
        let ch = &hits[k].1;
        assert(ja4_ready(hits@[k as int].1@));
        let j4 = compute_ja4(ch).0;
        match find_row_exec(&rows, ip, &j4) {
            Some(i) => {
                proof {
                    lemma_count_le_total(prev, i as int);
                }
                let ghost old_rows = rows@;
                let mut e = rows.remove(i);
                e.count = e.count + 1;
                rows.insert(i, e);
                proof {
                    assert(rows@ =~= old_rows.update(i as int, e));
                    assert(entry_views(rows@) =~= prev.update(i as int, EntryV { count: prev[i as int].count + 1, ..prev[i as int] }));
                    lemma_total_update(prev, i as int, EntryV { count: prev[i as int].count + 1, ..prev[i as int] });
                }
            },
            None => {
                let ja3 = if want_ja3 {
                    Some(compute_ja3(ch))
                } else {
                    None
                };
                let client = if lookup {
                    match lookup_ja4(j4.as_str()) {
                        Some(n) => Some(string_of(&chars_of(n))),
                        None => Some(string_of(&chars_of(UNCLASSIFIED))),
                    }
                } else {
                    None
                };
                let e = ClientEntry { ip: clone_string(ip), ja4: j4, ja3, client, count: 1 };
                rows.push(e);
                proof {
                    assert(entry_views(rows@) =~= prev.push(new_entry(hv[k as int].0, hv[k as int].1, want_ja3, lookup)));
                    lemma_total_push(prev, new_entry(hv[k as int].0, hv[k as int].1, want_ja3, lookup));
                }
            },
        }
        k += 1;
    }
    assert(hit_views(hits@).take(hits@.len() as int) =~= hit_views(hits@));
    rows
}

proof fn lemma_total_take(es: Seq<EntryV>, j: int)
    requires
        0 <= j < es.len(),
    ensures
        total_count(es.take(j + 1)) == total_count(es.take(j)) + es[j].count,
        total_count(es.take(j + 1)) <= total_count(es),
    decreases es.len(),
{
    assert(es.take(j + 1).drop_last() =~= es.take(j));
    if j + 1 < es.len() {
        lemma_total_take(es.drop_last(), j);
        assert(es.drop_last().take(j + 1) =~= es.take(j + 1));
        assert(es.drop_last().take(j) =~= es.take(j));
    } else {
        assert(es.take(j + 1) =~= es);
    }
}

proof fn lemma_total_insert(es: Seq<EntryV>, p: int, e: EntryV)
    requires
        0 <= p <= es.len(),
    ensures
        total_count(es.insert(p, e)) == total_count(es) + e.count,
    decreases es.len(),
{
    let t = es.insert(p, e);
    if p == es.len() {
        assert(t =~= es.push(e));
        lemma_total_push(es, e);
    } else {
        assert(t.drop_last() =~= es.drop_last().insert(p, e));
        lemma_total_insert(es.drop_last(), p, e);
    }
}

proof fn lemma_merge_total(es: Seq<EntryV>)
    ensures
        total_count(merge_by_ja4(es)) == total_count(es),
    decreases es.len(),
{
    if es.len() > 0 {
        lemma_merge_total(es.drop_last());
        let prev = merge_by_ja4(es.drop_last());
        let e = es.last();
        match find_ja4_row(prev, e.ja4, 0) {
            Some(i) => {
                lemma_find_ja4_in(prev, e.ja4, 0);
                lemma_total_update(
                    prev,
                    i,
                    EntryV {
                        count: prev[i].count + e.count,
                        ip: if text_lt(e.ip, prev[i].ip) {
                            e.ip
                        } else {
                            prev[i].ip
                        },
                        ..prev[i]
                    },
                );
            },
            None => {
                lemma_total_push(prev, e);
            },
        }
    }
}

proof fn lemma_find_ja4_in(es: Seq<EntryV>, ja4: Seq<char>, i: int)
    ensures
        find_ja4_row(es, ja4, i) matches Some(k) ==> 0 <= k < es.len() && es[k].ja4 == ja4,
        find_ja4_row(es, ja4, i) is None ==> forall|k: int| 0 <= i <= k < es.len() ==> es[k].ja4 != ja4,
    decreases es.len() - i,
{
    if 0 <= i < es.len() && es[i].ja4 != ja4 {
        lemma_find_ja4_in(es, ja4, i + 1);
    }
}

proof fn lemma_find_row_in(es: Seq<EntryV>, ip: Seq<char>, ja4: Seq<char>, i: int)
    ensures
        find_row(es, ip, ja4, i) matches Some(k) ==> 0 <= k < es.len() && es[k].ip == ip && es[k].ja4 == ja4,
        find_row(es, ip, ja4, i) is None ==> forall|k: int|
            0 <= i <= k < es.len() ==> !(es[k].ip == ip && es[k].ja4 == ja4),
    decreases es.len() - i,
{
    if 0 <= i < es.len() && !(es[i].ip == ip && es[i].ja4 == ja4) {
        lemma_find_row_in(es, ip, ja4, i + 1);
    }
}

proof fn lemma_sort_total(s: Seq<EntryV>, by: SortBy)
    ensures
        total_count(stable_sort(s, by)) == total_count(s),
        stable_sort(s, by).len() == s.len(),
    decreases s.len(),
{
    if s.len() > 0 {
        lemma_sort_total(s.drop_last(), by);
        let t = stable_sort(s.drop_last(), by);
        lemma_slot_range(t, s.last(), by, 0);
        lemma_total_insert(t, slot_for(t, s.last(), by, 0), s.last());
    }
}

proof fn lemma_slot_range(s: Seq<EntryV>, x: EntryV, by: SortBy, i: int)
    requires
        0 <= i,
    ensures
        0 <= slot_for(s, x, by, i) <= s.len(),
    decreases s.len() - i,
{
    if i < s.len() && !sorts_before(x, s[i], by) {
        lemma_slot_range(s, x, by, i + 1);
    }
}

fn copy_entry(e: &ClientEntry) -> (r: ClientEntry)
    ensures
        entry_view(r) == entry_view(*e),
{
    ClientEntry {
        ip: clone_string(&e.ip),
        ja4: clone_string(&e.ja4),
        ja3: copy_opt(&e.ja3),
        client: copy_opt(&e.client),
        count: e.count,
    }
}

/// One row per JA4 (the `--unique` view).
fn merge_exec(rows: Vec<ClientEntry>) -> (res: Vec<ClientEntry>)
    requires
        total_count(entry_views(rows@)) <= usize::MAX,
    ensures
        entry_views(res@) == merge_by_ja4(entry_views(rows@)),
{
    let ghost all = entry_views(rows@);
    let mut rows = rows;
    let mut out: Vec<ClientEntry> = Vec::new();
    let n = rows.len();
    let mut j: usize = 0;
    assert(all.take(0) =~= Seq::<EntryV>::empty());
    assert(all.skip(0) =~= all);
    while rows.len() > 0
        invariant
            j + rows@.len() == n,
            all.len() == n,
            total_count(all) <= usize::MAX,
            entry_views(rows@) == all.skip(j as int),
            entry_views(out@) == merge_by_ja4(all.take(j as int)),
        decreases rows.len(),
    {
        let ghost old_rows = rows@;
        assert(entry_views(old_rows)[0] == entry_view(old_rows[0]));
        let e = rows.remove(0);
        assert(rows@ =~= old_rows.remove(0));
        assert(entry_views(rows@) =~= entry_views(old_rows).drop_first());
        assert(all.skip(j as int).drop_first() =~= all.skip(j + 1));
        assert(all[j as int] == entry_view(e));
        assert(all.take(j + 1).drop_last() =~= all.take(j as int));
        assert(all.take(j + 1).last() == all[j as int]);
        proof {
            lemma_total_take(all, j as int);
            lemma_merge_total(all.take(j as int));
        }
        let ghost prev = entry_views(out@);
        match find_ja4_exec(&out, &e.ja4) {
            Some(i) => {
                proof {
                    lemma_count_le_total(prev, i as int);
                }
                let ghost old_out = out@;
                let mut slot = out.remove(i);
                slot.count = slot.count + e.count;
                if text_less(&e.ip, &slot.ip) {
                    slot.ip = e.ip;
                }
                out.insert(i, slot);
                assert(out@ =~= old_out.update(i as int, slot));
                assert(entry_views(out@) =~= prev.update(
                    i as int,
                    EntryV {
                        count: prev[i as int].count + entry_view(e).count,
                        ip: if text_lt(entry_view(e).ip, prev[i as int].ip) {
                            entry_view(e).ip
                        } else {
                            prev[i as int].ip
                        },
                        ..prev[i as int]
                    },
                ));
            },
            None => {
                out.push(e);
                assert(entry_views(out@) =~= prev.push(all[j as int]));
            },
        }
        j += 1;
    }
    assert(all.take(j as int) =~= all);
    out
}

/// Whether row `a` sorts strictly before row `b`.
fn sorts_before_exec(a: &ClientEntry, b: &ClientEntry, by: SortBy) -> (r: bool)
    ensures
        r == sorts_before(entry_view(*a), entry_view(*b), by),
{
    match by {
        SortBy::Count => a.count > b.count || (a.count == b.count && text_less(&a.ip, &b.ip)),
        SortBy::Ip => text_less(&a.ip, &b.ip),
        SortBy::Fingerprint => text_less(&a.ja4, &b.ja4),
    }
}

/// Stable sort of rows by `by`.
fn sort_rows(rows: Vec<ClientEntry>, by: SortBy) -> (res: Vec<ClientEntry>)
    ensures
        entry_views(res@) == stable_sort(entry_views(rows@), by),
{
    let ghost all = entry_views(rows@);
    let mut rows = rows;
    let mut out: Vec<ClientEntry> = Vec::new();
    let n = rows.len();
    let mut j: usize = 0;
    assert(all.take(0) =~= Seq::<EntryV>::empty());
    assert(all.skip(0) =~= all);
    while rows.len() > 0
        invariant
            j + rows@.len() == n,
            all.len() == n,
            entry_views(rows@) == all.skip(j as int),
            entry_views(out@) == stable_sort(all.take(j as int), by),
        decreases rows.len(),
    {
        let ghost old_rows = rows@;
        assert(entry_views(old_rows)[0] == entry_view(old_rows[0]));
        let x = rows.remove(0);
        assert(rows@ =~= old_rows.remove(0));
        assert(entry_views(rows@) =~= entry_views(old_rows).drop_first());
        assert(all.skip(j as int).drop_first() =~= all.skip(j + 1));
        assert(all[j as int] == entry_view(x));
        assert(all.take(j + 1).drop_last() =~= all.take(j as int));
        assert(all.take(j + 1).last() == all[j as int]);
        let ghost t = entry_views(out@);
        let mut p: usize = 0;
        while p < out.len() && !sorts_before_exec(&x, &out[p], by)
            invariant
                p <= out@.len(),
                t == entry_views(out@),
                slot_for(t, entry_view(x), by, 0) == slot_for(t, entry_view(x), by, p as int),
            decreases out.len() - p,
        {
            p += 1;
        }
        let ghost old_out = out@;
        out.insert(p, x);
        assert(entry_views(out@) =~= t.insert(p as int, entry_view(x)));
        j += 1;
    }
    assert(all.take(j as int) =~= all);
    out
}

/// The rows of the capture report: per (address, JA4) pair, or per JA4
/// with `unique`, sorted by `sort_by`. Every hello must allow JA4.
pub fn rank_clients(
    hits: &Vec<(String, ClientHello)>,
    want_ja3: bool,
    lookup: bool,
    unique: bool,
    sort_by: SortBy,
) -> (res: Vec<ClientEntry>)
    requires
        forall|i: int| 0 <= i < hits@.len() ==> ja4_ready((#[trigger] hits@[i]).1@),
    ensures
        entry_views(res@) == rank_spec(hit_views(hits@), want_ja3, lookup, unique, sort_by),
        total_count(entry_views(res@)) == hits@.len(),
{
    let rows = tally_exec(hits, want_ja3, lookup);
    let ghost tallied = entry_views(rows@);
    assert(hits@.len() == hits.len());
    let rows = if unique {
        proof {
            lemma_merge_total(tallied);
        }
        merge_exec(rows)
    } else {
        rows
    };
    let ghost before = entry_views(rows@);
    let out = sort_rows(rows, sort_by);
    proof {
        lemma_sort_total(before, sort_by);
        lemma_merge_total(tallied);
    }
    out
}

/// Whether JA4 can be computed for every hit.
pub fn hits_ja4_ready(hits: &Vec<(String, ClientHello)>) -> (r: bool)
    ensures
        r == forall|i: int| 0 <= i < hits@.len() ==> ja4_ready((#[trigger] hits@[i]).1@),
{
    let mut i: usize = 0;
    while i < hits.len()
        invariant
            i <= hits@.len(),
            forall|j: int| 0 <= j < i ==> ja4_ready((#[trigger] hits@[j]).1@),
        decreases hits.len() - i,
    {
        if !is_ja4_ready(&hits[i].1) {
            return false;
        }
        i += 1;
    }
    true
}

/// The capture report over ranked rows: the handshake total and the row
/// count.
pub fn pcap_report(file: String, clients: Vec<ClientEntry>) -> (res: PcapReport)
    requires
        total_count(entry_views(clients@)) <= usize::MAX,
    ensures
        res.file@ == file@,
        res.total_handshakes == total_count(entry_views(clients@)),
        res.unique_clients == clients@.len(),
        res.clients@ == clients@,
{
    let mut total: usize = 0;
    let mut i: usize = 0;
    assert(entry_views(clients@).take(0) =~= Seq::<EntryV>::empty());
    while i < clients.len()
        invariant
            i <= clients@.len(),
            total_count(entry_views(clients@)) <= usize::MAX,
            total == total_count(entry_views(clients@).take(i as int)),
        decreases clients.len() - i,
    {
        proof {
            lemma_total_take(entry_views(clients@), i as int);
        }
        total = total + clients[i].count;
        i += 1;
    }
    assert(entry_views(clients@).take(clients@.len() as int) =~= entry_views(clients@));
    let n = clients.len();
    PcapReport { file, total_handshakes: total, unique_clients: n, clients }
}

/// The `--quiet` lines of a capture report: each row's JA4, or its JA3
/// (JA4 when it has none) when only JA3 was asked for.
pub fn quiet_lines(report: &PcapReport, ja3_only: bool) -> (res: Vec<String>)
    ensures
        res@.len() == report.clients@.len(),
        forall|i: int| 0 <= i < res@.len() ==> (#[trigger] res@[i])@ == (if ja3_only && report.clients@[i].ja3
            is Some {
            report.clients@[i].ja3->0@
        } else {
            report.clients@[i].ja4@
        }),
{
    let mut out: Vec<String> = Vec::new();
    let mut i: usize = 0;
    while i < report.clients.len()
        invariant
            i <= report.clients@.len(),
            out@.len() == i,
            forall|k: int| 0 <= k < i ==> (#[trigger] out@[k])@ == (if ja3_only && report.clients@[k].ja3
                is Some {
                report.clients@[k].ja3->0@
            } else {
                report.clients@[k].ja4@
            }),
        decreases report.clients.len() - i,
    {
        let c = &report.clients[i];
        let line = if ja3_only {
            match &c.ja3 {
                Some(j) => clone_string(j),
                None => clone_string(&c.ja4),
            }
        } else {
            clone_string(&c.ja4)
        };
        out.push(line);
        i += 1;
    }
    out
}

} // verus!
