//! TCP stream reassembly.
//!
//! A `ClientHello` can span several TCP segments. Segments are buffered per
//! directed flow, keyed by sequence number; the stream of a flow is the
//! payload of its lowest-numbered segment followed by each next segment
//! (in sequence order) that starts exactly where the previous one ended,
//! up to the first gap. A second segment with an already-seen sequence
//! number is ignored (first wins).
//!
//! Limits guard against adversarial captures: a new flow is dropped once
//! `max_flows` flows are tracked, and a segment is dropped when it would
//! take its flow past `max_bytes_per_flow` buffered bytes.

use crate::pcap::tcp::{FlowKey, TcpSegment};
use crate::pcap::segment_order::sorted_seg_keys;
use crate::tls::bytes::extend;
use std::collections::BTreeMap;
use vstd::prelude::*;

verus! {

broadcast use {vstd::set::group_set_axioms, vstd::std_specs::btree::group_btree_axioms};

/// The map a list of key/value pairs stands for (a later pair wins).
pub open spec fn pairs_map<K, V>(s: Seq<(K, V)>) -> Map<K, V>
    decreases s.len(),
{
    if s.len() == 0 {
        Map::empty()
    } else {
        pairs_map(s.drop_last()).insert(s.last().0, s.last().1)
    }
}

/// No key occurs twice.
pub open spec fn distinct_keys<K, V>(s: Seq<(K, V)>) -> bool {
    forall|i: int, j: int| 0 <= i < j < s.len() ==> s[i].0 != s[j].0
}

/// Strictly increasing.
pub open spec fn strictly_sorted(s: Seq<u32>) -> bool {
    forall|i: int, j: int| 0 <= i < j < s.len() ==> s[i] < s[j]
}

proof fn lemma_pairs_map_dom<K, V>(s: Seq<(K, V)>, k: K)
    ensures
        pairs_map(s).dom().contains(k) <==> exists|i: int| 0 <= i < s.len() && s[i].0 == k,
        pairs_map(s).dom().finite(),
    decreases s.len(),
{
    if s.len() > 0 {
        lemma_pairs_map_dom(s.drop_last(), k);
        if pairs_map(s).dom().contains(k) && s.last().0 != k {
            let i = choose|i: int| 0 <= i < s.drop_last().len() && s.drop_last()[i].0 == k;
            assert(s[i].0 == k);
        }
        if exists|i: int| 0 <= i < s.len() && s[i].0 == k {
            let i = choose|i: int| 0 <= i < s.len() && s[i].0 == k;
            if i < s.len() - 1 {
                assert(s.drop_last()[i].0 == k);
            }
        }
    }
}

proof fn lemma_pairs_map_value<K, V>(s: Seq<(K, V)>, i: int)
    requires
        distinct_keys(s),
        0 <= i < s.len(),
    ensures
        pairs_map(s).dom().contains(s[i].0),
        pairs_map(s)[s[i].0] == s[i].1,
    decreases s.len(),
{
    if i < s.len() - 1 {
        lemma_pairs_map_value(s.drop_last(), i);
        assert(s.drop_last()[i] == s[i]);
    }
}

proof fn lemma_pairs_map_len<K, V>(s: Seq<(K, V)>)
    requires
        distinct_keys(s),
    ensures
        pairs_map(s).len() == s.len(),
    decreases s.len(),
{
    if s.len() > 0 {
        lemma_pairs_map_len(s.drop_last());
        lemma_pairs_map_dom(s.drop_last(), s.last().0);
        if pairs_map(s.drop_last()).dom().contains(s.last().0) {
            let i = choose|i: int| 0 <= i < s.drop_last().len() && s.drop_last()[i].0 == s.last().0;
            assert(s[i].0 == s[s.len() - 1].0);
        }
    }
}

proof fn lemma_pairs_map_update<K, V>(s: Seq<(K, V)>, i: int, v: V)
    requires
        distinct_keys(s),
        0 <= i < s.len(),
    ensures
        pairs_map(s.update(i, (s[i].0, v))) == pairs_map(s).insert(s[i].0, v),
    decreases s.len(),
{
    let t = s.update(i, (s[i].0, v));
    if i == s.len() - 1 {
        assert(t.drop_last() =~= s.drop_last());
        lemma_pairs_map_dom(s.drop_last(), s[i].0);
        assert(pairs_map(s).insert(s[i].0, v) =~= pairs_map(s.drop_last()).insert(s[i].0, v));
    } else {
        assert(t.drop_last() =~= s.drop_last().update(i, (s[i].0, v)));
        lemma_pairs_map_update(s.drop_last(), i, v);
        assert(s.last().0 != s[i].0);
        assert(pairs_map(t) =~= pairs_map(s).insert(s[i].0, v));
    }
}

proof fn lemma_pairs_map_push<K, V>(s: Seq<(K, V)>, k: K, v: V)
    ensures
        pairs_map(s.push((k, v))) == pairs_map(s).insert(k, v),
{
    assert(s.push((k, v)).drop_last() =~= s);
}

proof fn lemma_sorted_unique(a: Seq<u32>, b: Seq<u32>)
    requires
        strictly_sorted(a),
        strictly_sorted(b),
        forall|k: u32| a.contains(k) <==> b.contains(k),
    ensures
        a == b,
    decreases a.len(),
{
    if a.len() == 0 {
        if b.len() > 0 {
            assert(b.contains(b[0]));
        }
        assert(a =~= b);
    } else {
        assert(a.contains(a[0]));
        assert(b.len() > 0);
        assert(b.contains(b[0]));
        let j = choose|j: int| 0 <= j < b.len() && b[j] == a[0];
        let i = choose|i: int| 0 <= i < a.len() && a[i] == b[0];
        assert(a[0] <= a[i]);
        assert(b[0] <= b[j]);
        assert(a[0] == b[0]);
        let a1 = a.drop_first();
        let b1 = b.drop_first();
        assert forall|k: u32| a1.contains(k) implies b1.contains(k) by {
            let p = choose|p: int| 0 <= p < a1.len() && a1[p] == k;
            assert(a[p + 1] == k);
            assert(a.contains(k));
            let q = choose|q: int| 0 <= q < b.len() && b[q] == k;
            assert(q != 0);
            assert(b1[q - 1] == k);
        }
        assert forall|k: u32| b1.contains(k) implies a1.contains(k) by {
            let p = choose|p: int| 0 <= p < b1.len() && b1[p] == k;
            assert(b[p + 1] == k);
            assert(b.contains(k));
            let q = choose|q: int| 0 <= q < a.len() && a[q] == k;
            assert(q != 0);
            assert(a1[q - 1] == k);
        }
        lemma_sorted_unique(a1, b1);
        assert(a.len() == b.len());
        assert forall|i: int| 0 <= i < a.len() implies a[i] == b[i] by {
            if i > 0 {
                assert(a[i] == a1[i - 1]);
                assert(b[i] == b1[i - 1]);
            }
        }
        assert(a =~= b);
    }
}

/// The strictly increasing list of the keys of `m`.
pub open spec fn sorted_keys(m: Map<u32, Seq<u8>>) -> Seq<u32> {
    choose|s: Seq<u32>| strictly_sorted(s) && forall|k: u32| s.contains(k) <==> m.dom().contains(k)
}

/// Where the segment after one at `seq` with `payload` must start: `seq`
/// plus the payload length, both taken modulo 2^32.
pub open spec fn next_seq(seq: u32, payload: Seq<u8>) -> u32 {
    ((seq as int + (payload.len() as int % 0x1_0000_0000)) % 0x1_0000_0000) as u32
}

/// The payloads of the segments at `keys` (in order) while each starts at
/// `expected`, the end of the previous one.
pub open spec fn chain(m: Map<u32, Seq<u8>>, keys: Seq<u32>, expected: u32) -> Seq<u8>
    decreases keys.len(),
{
    if keys.len() == 0 || keys[0] != expected {
        Seq::empty()
    } else {
        m[keys[0]] + chain(m, keys.drop_first(), next_seq(keys[0], m[keys[0]]))
    }
}

/// The contiguous stream of a flow's segments: the lowest-numbered
/// segment and every following one up to the first gap; `None` when it is
/// empty.
pub open spec fn stream_of(m: Map<u32, Seq<u8>>) -> Option<Seq<u8>> {
    let keys = sorted_keys(m);
    if keys.len() == 0 {
        None
    } else {
        let out = m[keys[0]] + chain(m, keys.drop_first(), next_seq(keys[0], m[keys[0]]));
        if out.len() == 0 {
            None
        } else {
            Some(out)
        }
    }
}

/// What one flow holds: its segments by sequence number, the first
/// sequence number seen, and how many payload bytes it buffers.
pub struct FlowV {
    pub segments: Map<u32, Seq<u8>>,
    pub base_seq: Option<u32>,
    pub buffered: nat,
}

/// A flow after offering it a segment, with at most `max` buffered bytes.
pub open spec fn flow_insert(f: FlowV, seq: u32, payload: Seq<u8>, max: nat) -> FlowV {
    if f.buffered + payload.len() > max {
        f
    } else {
        let base = if f.base_seq is None {
            Some(seq)
        } else {
            f.base_seq
        };
        if f.segments.contains_key(seq) {
            FlowV { base_seq: base, ..f }
        } else {
            FlowV { segments: f.segments.insert(seq, payload), base_seq: base, buffered: f.buffered + payload.len() }
        }
    }
}

/// A flow with no segments.
pub open spec fn empty_flow() -> FlowV {
    FlowV { segments: Map::empty(), base_seq: None, buffered: 0 }
}

/// What a reassembler holds: its flows, and its two limits.
pub struct ReassemblerV {
    pub flows: Map<FlowKey, FlowV>,
    pub max_flows: nat,
    pub max_bytes: nat,
}

/// A reassembler after offering it `payload` at `seq` on flow `key`. A
/// new flow takes a slot whenever there is room for one, even when its
/// first segment is then dropped for the per-flow byte limit.
pub open spec fn insert_spec(r: ReassemblerV, key: FlowKey, seq: u32, payload: Seq<u8>) -> ReassemblerV {
    if payload.len() == 0 {
        r
    } else if r.flows.contains_key(key) {
        ReassemblerV { flows: r.flows.insert(key, flow_insert(r.flows[key], seq, payload, r.max_bytes)), ..r }
    } else if r.flows.len() >= r.max_flows {
        r
    } else {
        ReassemblerV { flows: r.flows.insert(key, flow_insert(empty_flow(), seq, payload, r.max_bytes)), ..r }
    }
}

/// Whether flow `f` holds at least one segment.
pub open spec fn holds_segment(f: FlowV) -> bool {
    exists|s: u32| f.segments.contains_key(s)
}

/// The reassembled stream of flow `key`, if it has one.
pub open spec fn reassembled_spec(r: ReassemblerV, key: FlowKey) -> Option<Seq<u8>> {
    if r.flows.contains_key(key) {
        stream_of(r.flows[key].segments)
    } else {
        None
    }
}

/// Per-flow state: segments by sequence number.
struct FlowState {
    segments: BTreeMap<u32, Vec<u8>>,
    base_seq: Option<u32>,
    buffered_bytes: usize,
}

/// A length taken modulo 2^32.
fn len_mod32(n: usize) -> (r: u32)
    ensures
        r as int == n as int % 0x1_0000_0000,
{
    ((n as u64) % 0x1_0000_0000) as u32
}

impl FlowState {
    spec fn view(&self) -> FlowV {
        FlowV {
            segments: self.segments@.map_values(|v: Vec<u8>| v@),
            base_seq: self.base_seq,
            buffered: self.buffered_bytes as nat,
        }
    }

    spec fn wf(&self, max: nat) -> bool {
        &&& forall|k: u32| #[trigger] self.segments@.contains_key(k) ==> self.segments@[k]@.len() > 0
        &&& self.buffered_bytes <= max
    }

    proof fn lemma_holds_segment(&self)
        ensures
            holds_segment(self.view()) <==> !self.segments@.is_empty(),
    {
        if holds_segment(self.view()) {
            let s = choose|s: u32| self.view().segments.contains_key(s);
            assert(self.segments@.dom().contains(s));
            assert(!(self.segments@.dom() =~= Set::<u32>::empty()));
        }
        if !self.segments@.is_empty() {
            assert(!(self.segments@.dom() =~= Set::<u32>::empty()));
            let s = choose|s: u32| self.segments@.dom().contains(s);
            assert(self.view().segments.contains_key(s));
        }
    }

    fn new() -> (r: FlowState)
        ensures
            r.view() == empty_flow(),
            r.wf(0),
    {
        let r = FlowState { segments: BTreeMap::new(), base_seq: None, buffered_bytes: 0 };
        assert(r.view().segments =~= Map::<u32, Seq<u8>>::empty());
        r
    }

    /// Offer a segment (non-empty payload) with at most `max` buffered
    /// bytes.
    fn insert(&mut self, seq: u32, payload: Vec<u8>, max: usize)
        requires
            old(self).wf(max as nat),
            payload@.len() > 0,
        ensures
            final(self).wf(max as nat),
            final(self).view() == flow_insert(old(self).view(), seq, payload@, max as nat),
    {
        if payload.len() > max - self.buffered_bytes {
            return;
        }
        if self.base_seq.is_none() {
            self.base_seq = Some(seq);
        }
        if self.segments.contains_key(&seq) {
            return;
        }
        let n = payload.len();
        let ghost pv = payload@;
        let ghost before = self.segments@;
        self.segments.insert(seq, payload);
        self.buffered_bytes = self.buffered_bytes + n;
        proof {
            assert(self.segments@ == before.insert(seq, self.segments@[seq]));
            assert(self.view().segments =~= old(self).view().segments.insert(seq, pv));
        }
    }

    /// The contiguous stream of this flow, if non-empty.
    fn stream(&self) -> (res: Option<Vec<u8>>)
        ensures
            match res {
                Some(v) => stream_of(self.view().segments) == Some(v@),
                None => stream_of(self.view().segments) is None,
            },
    {
        let ghost m = self.view().segments;
        let ks = sorted_seg_keys(&self.segments);
        let ghost keys = ks@;
        proof {
            assert forall|k: u32| keys.contains(k) <==> m.dom().contains(k) by {}
            lemma_sorted_unique(sorted_keys(m), keys);
        }
        if ks.len() == 0 {
            return None;
        }
        let mut out: Vec<u8> = Vec::new();
        let first_seq = ks[0];
        assert(keys.contains(first_seq));
        let mut expected: u32 = 0;
        match self.segments.get(&first_seq) {
            Some(p) => {
                extend(&mut out, p.as_slice());
                expected = first_seq.wrapping_add(len_mod32(p.len()));
            },
            None => {},
        }
        assert(out@ == m[first_seq]);
        assert(expected == next_seq(first_seq, m[first_seq]));
        let ghost total = m[keys[0]] + chain(m, keys.drop_first(), next_seq(keys[0], m[keys[0]]));
        let mut i: usize = 1;
        assert(keys.skip(1) =~= keys.drop_first());
        while i < ks.len()
            invariant_except_break
                1 <= i <= keys.len(),
                ks@ == keys,
                forall|k: u32| keys.contains(k) <==> m.dom().contains(k),
                m == self.view().segments,
                total == out@ + chain(m, keys.skip(i as int), expected),
            ensures
                total == out@,
            decreases ks.len() - i,
        {
            let s = ks[i];
            assert(keys.skip(i as int)[0] == s);
            if s != expected {
                break;
            }
            assert(keys.contains(s));
            proof {
                assert(keys.skip(i as int).drop_first() =~= keys.skip(i + 1));
            }
            let ghost prev = out@;
            match self.segments.get(&s) {
                Some(p) => {
                    extend(&mut out, p.as_slice());
                    expected = s.wrapping_add(len_mod32(p.len()));
                },
                None => {},
            }
            assert(out@ == prev + m[s]);
            assert(expected == next_seq(s, m[s]));
            assert(out@ + chain(m, keys.skip(i + 1), expected) =~= prev + (m[s] + chain(
                m,
                keys.skip(i + 1),
                expected,
            )));
            i += 1;
        }
        if out.len() == 0 {
            None
        } else {
            Some(out)
        }
    }
}

/// TCP reassembler over directed flows.
pub struct Reassembler {
    flows: Vec<(FlowKey, FlowState)>,
    max_flows: usize,
    max_bytes_per_flow: usize,
}

/// The flows as key / flow pairs.
spec fn flow_pairs(v: Seq<(FlowKey, FlowState)>) -> Seq<(FlowKey, FlowV)> {
    v.map_values(|e: (FlowKey, FlowState)| (e.0, e.1.view()))
}

impl View for Reassembler {
    type V = ReassemblerV;

    closed spec fn view(&self) -> ReassemblerV {
        ReassemblerV {
            flows: pairs_map(flow_pairs(self.flows@)),
            max_flows: self.max_flows as nat,
            max_bytes: self.max_bytes_per_flow as nat,
        }
    }
}

impl Reassembler {
    /// The reassembler's invariant: one entry per flow, at most
    /// `max_flows` of them, each with non-empty segments within the byte
    /// limit.
    pub closed spec fn wf(&self) -> bool {
        &&& distinct_keys(flow_pairs(self.flows@))
        &&& self.flows@.len() <= self.max_flows
        &&& forall|i: int| 0 <= i < self.flows@.len() ==> (#[trigger] self.flows@[i]).1.wf(
            self.max_bytes_per_flow as nat,
        )
    }

    /// An empty reassembler with the given limits.
    pub fn with_limits(max_flows: usize, max_bytes_per_flow: usize) -> (r: Reassembler)
        ensures
            r.wf(),
            r@.flows == Map::<FlowKey, FlowV>::empty(),
            r@.max_flows == max_flows,
            r@.max_bytes == max_bytes_per_flow,
    {
        let r = Reassembler { flows: Vec::new(), max_flows, max_bytes_per_flow };
        assert(r@.flows =~= Map::<FlowKey, FlowV>::empty());
        r
    }

    /// An empty reassembler tracking at most 10 000 flows of at most
    /// 1 MiB each.
    pub fn new() -> (r: Reassembler)
        ensures
            r.wf(),
            r@.flows == Map::<FlowKey, FlowV>::empty(),
            r@.max_flows == 10_000,
            r@.max_bytes == 1024 * 1024,
    {
        Self::with_limits(10_000, 1024 * 1024)
    }

    fn find(&self, key: &FlowKey) -> (r: Option<usize>)
        ensures
            match r {
                Some(i) => i < self.flows@.len() && self.flows@[i as int].0 == *key,
                None => forall|i: int| 0 <= i < self.flows@.len() ==> self.flows@[i].0 != *key,
            },
    {
        let mut i: usize = 0;
        while i < self.flows.len()
            invariant
                i <= self.flows@.len(),
                forall|j: int| 0 <= j < i ==> self.flows@[j].0 != *key,
            decreases self.flows.len() - i,
        {
            if self.flows[i].0 == *key {
                return Some(i);
            }
            i += 1;
        }
        None
    }

    proof fn lemma_flow_at(&self, m: int)
        requires
            self.wf(),
            0 <= m < self.flows@.len(),
        ensures
            self@.flows.dom().contains(self.flows@[m].0),
            self@.flows[self.flows@[m].0] == self.flows@[m].1.view(),
    {
        lemma_pairs_map_value(flow_pairs(self.flows@), m);
    }

    proof fn lemma_contains(&self, key: FlowKey)
        ensures
            self@.flows.dom().contains(key) <==> exists|i: int|
                0 <= i < self.flows@.len() && self.flows@[i].0 == key,
            self@.flows.dom().finite(),
    {
        lemma_pairs_map_dom(flow_pairs(self.flows@), key);
        if exists|i: int| 0 <= i < self.flows@.len() && self.flows@[i].0 == key {
            let i = choose|i: int| 0 <= i < self.flows@.len() && self.flows@[i].0 == key;
            assert(flow_pairs(self.flows@)[i].0 == key);
        }
        if self@.flows.dom().contains(key) {
            let i = choose|i: int| 0 <= i < flow_pairs(self.flows@).len() && flow_pairs(self.flows@)[i].0 == key;
            assert(self.flows@[i].0 == key);
        }
    }

    /// Offer a segment of flow `key`.
    ///
    /// An empty payload, a new flow beyond `max_flows`, and a segment that
    /// would exceed the flow's byte limit are dropped; a segment whose
    /// sequence number the flow already holds is ignored.
    pub fn insert(&mut self, key: FlowKey, segment: TcpSegment)
        requires
            old(self).wf(),
        ensures
            final(self).wf(),
            final(self)@ == insert_spec(old(self)@, key, segment.seq, segment.payload@),
    {
        if segment.payload.len() == 0 {
            return;
        }
        let ghost old_flows = self.flows@;
        proof {
            self.lemma_contains(key);
            lemma_pairs_map_len(flow_pairs(old_flows));
        }
        match self.find(&key) {
            Some(i) => {
                let (k, mut st) = self.flows.remove(i);
                proof {
                    lemma_pairs_map_value(flow_pairs(old_flows), i as int);
                    assert(old_flows[i as int].1.wf(self.max_bytes_per_flow as nat));
                }
                st.insert(segment.seq, segment.payload, self.max_bytes_per_flow);
                self.flows.insert(i, (k, st));
                proof {
                    let t = self.flows@;
                    assert(t =~= old_flows.update(i as int, (k, st)));
                    assert(flow_pairs(t) =~= flow_pairs(old_flows).update(i as int, (k, st.view())));
                    lemma_pairs_map_update(flow_pairs(old_flows), i as int, st.view());
                    assert forall|j: int| 0 <= j < t.len() implies (#[trigger] t[j]).1.wf(
                        self.max_bytes_per_flow as nat,
                    ) by {
                        if j != i {
                            assert(t[j] == old_flows[j]);
                        }
                    }
                    assert forall|a: int, b: int| 0 <= a < b < flow_pairs(t).len() implies flow_pairs(t)[a].0
                        != flow_pairs(t)[b].0 by {
                        assert(flow_pairs(t)[a].0 == flow_pairs(old_flows)[a].0);
                        assert(flow_pairs(t)[b].0 == flow_pairs(old_flows)[b].0);
                    }
                }
            },
            None => {
                if self.flows.len() >= self.max_flows {
                    return;
                }
                let mut st = FlowState::new();
                st.insert(segment.seq, segment.payload, self.max_bytes_per_flow);
                self.flows.push((key, st));
                proof {
                    let t = self.flows@;
                    assert(flow_pairs(t) =~= flow_pairs(old_flows).push((key, st.view())));
                    lemma_pairs_map_push(flow_pairs(old_flows), key, st.view());
                    assert forall|j: int| 0 <= j < t.len() implies (#[trigger] t[j]).1.wf(
                        self.max_bytes_per_flow as nat,
                    ) by {
                        if j < old_flows.len() {
                            assert(t[j] == old_flows[j]);
                        }
                    }
                    assert forall|a: int, b: int| 0 <= a < b < flow_pairs(t).len() implies flow_pairs(t)[a].0
                        != flow_pairs(t)[b].0 by {
                        assert(flow_pairs(t)[a].0 == flow_pairs(old_flows)[a].0 || a >= old_flows.len());
                        if b == old_flows.len() {
                            assert(flow_pairs(t)[a].0 == old_flows[a].0);
                        } else {
                            assert(flow_pairs(t)[b].0 == flow_pairs(old_flows)[b].0);
                        }
                    }
                }
            },
        }
    }

    /// The reassembled contiguous stream of flow `key`, if any: the
    /// lowest-numbered segment and each next one that starts where the
    /// previous ended, up to the first gap.
    pub fn reassembled(&self, key: &FlowKey) -> (res: Option<Vec<u8>>)
        requires
            self.wf(),
        ensures
            match res {
                Some(v) => reassembled_spec(self@, *key) == Some(v@),
                None => reassembled_spec(self@, *key) is None,
            },
    {
        proof {
            self.lemma_contains(*key);
        }
        match self.find(key) {
            Some(i) => {
                proof {
                    lemma_pairs_map_value(flow_pairs(self.flows@), i as int);
                    assert(self.flows@[i as int].1.wf(self.max_bytes_per_flow as nat));
                }
                self.flows[i].1.stream()
            },
            None => None,
        }
    }

    /// Keys of every flow that holds at least one segment, each once.
    pub fn flow_keys(&self) -> (res: Vec<FlowKey>)
        requires
            self.wf(),
        ensures
            res@.no_duplicates(),
            forall|k: FlowKey|
                #![trigger res@.contains(k)]
                #![trigger self@.flows[k]]
                res@.contains(k) <==> (self@.flows.dom().contains(k) && holds_segment(self@.flows[k])),
    {
        let mut out: Vec<FlowKey> = Vec::new();
        let ghost mut idx: Seq<int> = Seq::empty();
        let mut i: usize = 0;
        while i < self.flows.len()
            invariant
                i <= self.flows@.len(),
                self.wf(),
                idx.len() == out@.len(),
                forall|j: int|
                    0 <= j < idx.len() ==> 0 <= #[trigger] idx[j] < i && self.flows@[idx[j]].0 == out@[j]
                        && self.flows@[idx[j]].1.segments@.len() > 0,
                forall|a: int, b: int| 0 <= a < b < idx.len() ==> #[trigger] idx[a] < #[trigger] idx[b],
                forall|m: int| 0 <= m < i && self.flows@[m].1.segments@.len() > 0 ==> out@.contains(
                    #[trigger] self.flows@[m].0,
                ),
            decreases self.flows.len() - i,
        {
            if self.flows[i].1.segments.len() > 0 {
                let ghost before = out@;
                let k = self.flows[i].0;
                out.push(k);
                proof {
                    idx = idx.push(i as int);
                    assert forall|m: int| 0 <= m < i + 1 && self.flows@[m].1.segments@.len() > 0 implies out@.contains(
                        #[trigger] self.flows@[m].0,
                    ) by {
                        if m < i {
                            assert(before.contains(self.flows@[m].0));
                            let j = choose|j: int| 0 <= j < before.len() && before[j] == self.flows@[m].0;
                            assert(out@[j] == before[j]);
                        } else {
                            assert(out@[before.len() as int] == k);
                        }
                    }
                }
            }
            i += 1;
        }
        assert forall|a: int, b: int| 0 <= a < out@.len() && 0 <= b < out@.len() && a != b implies out@[a]
            != out@[b] by {
            if a < b {
                assert(idx[a] < idx[b]);
                assert(flow_pairs(self.flows@)[idx[a]].0 != flow_pairs(self.flows@)[idx[b]].0);
            } else {
                assert(idx[b] < idx[a]);
                assert(flow_pairs(self.flows@)[idx[b]].0 != flow_pairs(self.flows@)[idx[a]].0);
            }
        }
        assert forall|k: FlowKey| #[trigger] out@.contains(k) implies self@.flows.dom().contains(k) && holds_segment(
            self@.flows[k],
        ) by {
            let j = choose|j: int| 0 <= j < out@.len() && out@[j] == k;
            let m = idx[j];
            assert(0 <= m < self.flows@.len());
            assert(self.flows@[m].0 == k);
            self.lemma_flow_at(m);
            self.flows@[m].1.lemma_holds_segment();
        }
        assert forall|k: FlowKey| self@.flows.dom().contains(k) && holds_segment(#[trigger] self@.flows[k]) implies out@.contains(k) by {
            self.lemma_contains(k);
            let m = choose|m: int| 0 <= m < self.flows@.len() && self.flows@[m].0 == k;
            self.lemma_flow_at(m);
            self.flows@[m].1.lemma_holds_segment();
        }
        out
    }

    /// Number of tracked flows.
    pub fn flow_count(&self) -> (r: usize)
        requires
            self.wf(),
        ensures
            r == self@.flows.len(),
    {
        proof {
            lemma_pairs_map_len(flow_pairs(self.flows@));
        }
        self.flows.len()
    }

    /// The reassembled stream of every flow that has one, each flow once.
    pub fn all_reassembled(&self) -> (res: Vec<(FlowKey, Vec<u8>)>)
        requires
            self.wf(),
        ensures
            forall|i: int, j: int| 0 <= i < j < res@.len() ==> res@[i].0 != res@[j].0,
            forall|i: int| 0 <= i < res@.len() ==> reassembled_spec(self@, #[trigger] res@[i].0) == Some(
                res@[i].1@,
            ),
            forall|k: FlowKey| reassembled_spec(self@, k) is Some ==> exists|i: int|
                0 <= i < res@.len() && res@[i].0 == k,
    {
        let mut out: Vec<(FlowKey, Vec<u8>)> = Vec::new();
        let mut i: usize = 0;
        while i < self.flows.len()
            invariant
                i <= self.flows@.len(),
                self.wf(),
                forall|a: int| 0 <= a < out@.len() ==> exists|j: int|
                    0 <= j < i && self.flows@[j].0 == (#[trigger] out@[a]).0,
                forall|a: int, b: int| 0 <= a < b < out@.len() ==> out@[a].0 != out@[b].0,
                forall|a: int| 0 <= a < out@.len() ==> reassembled_spec(self@, #[trigger] out@[a].0) == Some(
                    out@[a].1@,
                ),
                forall|j: int| 0 <= j < i ==> reassembled_spec(self@, #[trigger] self.flows@[j].0) is Some
                    ==> exists|a: int| 0 <= a < out@.len() && out@[a].0 == self.flows@[j].0,
            decreases self.flows.len() - i,
        {
            let key = self.flows[i].0;
            let ghost prev = out@;
            match self.reassembled(&key) {
                Some(data) => {
                    out.push((key, data));
                    proof {
                        assert forall|a: int, b: int| 0 <= a < b < out@.len() implies out@[a].0 != out@[b].0 by {
                            if b == prev.len() {
                                let j = choose|j: int| 0 <= j < i && self.flows@[j].0 == (#[trigger] prev[a]).0;
                                assert(flow_pairs(self.flows@)[j].0 != flow_pairs(self.flows@)[i as int].0);
                            } else {
                                assert(out@[a] == prev[a]);
                                assert(out@[b] == prev[b]);
                            }
                        }
                        assert forall|a: int| 0 <= a < out@.len() implies exists|j: int|
                            0 <= j < i + 1 && self.flows@[j].0 == (#[trigger] out@[a]).0 by {
                            if a < prev.len() {
                                assert(out@[a] == prev[a]);
                                let j = choose|j: int| 0 <= j < i && self.flows@[j].0 == (#[trigger] prev[a]).0;
                                assert(self.flows@[j].0 == out@[a].0);
                            } else {
                                assert(self.flows@[i as int].0 == out@[a].0);
                            }
                        }
                        assert forall|j: int| 0 <= j < i + 1 && reassembled_spec(
                            self@,
                            #[trigger] self.flows@[j].0,
                        ) is Some implies exists|a: int| 0 <= a < out@.len() && out@[a].0 == self.flows@[j].0 by {
                            if j < i {
                                let a = choose|a: int| 0 <= a < prev.len() && prev[a].0 == self.flows@[j].0;
                                assert(out@[a] == prev[a]);
                            } else {
                                assert(out@[prev.len() as int].0 == self.flows@[j].0);
                            }
                        }
                    }
                },
                None => {
                    proof {
                        assert forall|a: int| 0 <= a < out@.len() implies exists|j: int|
                            0 <= j < i + 1 && self.flows@[j].0 == (#[trigger] out@[a]).0 by {
                            let j = choose|j: int| 0 <= j < i && self.flows@[j].0 == (#[trigger] prev[a]).0;
                            assert(self.flows@[j].0 == out@[a].0);
                        }
                    }
                },
            }
            i += 1;
        }
        proof {
            assert forall|k: FlowKey| reassembled_spec(self@, k) is Some implies exists|a: int|
                0 <= a < out@.len() && out@[a].0 == k by {
                self.lemma_contains(k);
                let j = choose|j: int| 0 <= j < self.flows@.len() && self.flows@[j].0 == k;
                assert(reassembled_spec(self@, self.flows@[j].0) is Some);
            }
        }
        out
    }
}

impl Default for Reassembler {
    /// The same as [`Reassembler::new`].
    fn default() -> (r: Reassembler)
        ensures
            r.wf(),
            r@.flows == Map::<FlowKey, FlowV>::empty(),
            r@.max_flows == 10_000,
            r@.max_bytes == 1024 * 1024,
    {
        Self::new()
    }
}

/// A segment whose sequence number its flow already holds changes no
/// reassembled stream (the first segment seen for a sequence number wins).
pub proof fn lemma_duplicate_ignored(r: ReassemblerV, key: FlowKey, seq: u32, payload: Seq<u8>, k: FlowKey)
    requires
        r.flows.contains_key(key),
        r.flows[key].segments.contains_key(seq),
    ensures
        reassembled_spec(insert_spec(r, key, seq, payload), k) == reassembled_spec(r, k),
{
    let r2 = insert_spec(r, key, seq, payload);
    if payload.len() > 0 {
        assert(r2.flows[key].segments =~= r.flows[key].segments);
        assert(r2.flows.dom() =~= r.flows.dom());
    }
}

/// Two segments of one flow with different sequence numbers give the same
/// reassembled streams whichever arrives first, when neither is dropped by
/// a limit.
pub proof fn lemma_insert_order_free(
    r: ReassemblerV,
    key: FlowKey,
    s1: u32,
    p1: Seq<u8>,
    s2: u32,
    p2: Seq<u8>,
    k: FlowKey,
)
    requires
        s1 != s2,
        p1.len() > 0,
        p2.len() > 0,
        r.flows.contains_key(key) || r.flows.len() < r.max_flows,
        (if r.flows.contains_key(key) {
            r.flows[key].buffered
        } else {
            0
        }) + p1.len() + p2.len() <= r.max_bytes,
    ensures
        reassembled_spec(insert_spec(insert_spec(r, key, s1, p1), key, s2, p2), k) == reassembled_spec(
            insert_spec(insert_spec(r, key, s2, p2), key, s1, p1),
            k,
        ),
{
    let a = insert_spec(insert_spec(r, key, s1, p1), key, s2, p2);
    let b = insert_spec(insert_spec(r, key, s2, p2), key, s1, p1);
    let f = if r.flows.contains_key(key) {
        r.flows[key]
    } else {
        empty_flow()
    };
    assert(a.flows.dom() =~= b.flows.dom());
    let sa = a.flows[key].segments;
    let sb = b.flows[key].segments;
    let m = f.segments;
    if m.contains_key(s1) && m.contains_key(s2) {
        assert(sa =~= m);
        assert(sb =~= m);
    } else if m.contains_key(s1) {
        assert(sa =~= m.insert(s2, p2));
        assert(sb =~= m.insert(s2, p2));
    } else if m.contains_key(s2) {
        assert(sa =~= m.insert(s1, p1));
        assert(sb =~= m.insert(s1, p1));
    } else {
        assert(sa =~= m.insert(s1, p1).insert(s2, p2));
        assert(sb =~= m.insert(s1, p1).insert(s2, p2));
    }
    if k != key {
        assert(a.flows.contains_key(k) ==> a.flows[k] == r.flows[k]);
        assert(b.flows.contains_key(k) ==> b.flows[k] == r.flows[k]);
    }
}

/// A stream split over two segments of a new flow is reassembled whole:
/// offering its head at `seq` and its tail right after it gives back the
/// whole payload (in either arrival order, by the law above), when the
/// flow fits the limits and the sequence numbers do not wrap.
pub proof fn lemma_split_stream_rejoins(r: ReassemblerV, key: FlowKey, seq: u32, p: Seq<u8>, k: int)
    requires
        !r.flows.contains_key(key),
        r.flows.len() < r.max_flows,
        p.len() <= r.max_bytes,
        0 < k < p.len(),
        seq + p.len() <= u32::MAX,
    ensures
        reassembled_spec(insert_spec(insert_spec(r, key, seq, p.take(k)), key, (seq + k) as u32, p.skip(k)), key)
            == Some(p),
{
    let s2 = (seq + k) as u32;
    let r1 = insert_spec(r, key, seq, p.take(k));
    let r2 = insert_spec(r1, key, s2, p.skip(k));
    let m = r2.flows[key].segments;
    assert(r1.flows[key].segments =~= Map::<u32, Seq<u8>>::empty().insert(seq, p.take(k)));
    assert(m =~= Map::<u32, Seq<u8>>::empty().insert(seq, p.take(k)).insert(s2, p.skip(k)));
    let keys = seq![seq, s2];
    assert(strictly_sorted(keys));
    assert forall|x: u32| keys.contains(x) <==> m.dom().contains(x) by {
        if x == seq {
            assert(keys[0] == x);
        }
        if x == s2 {
            assert(keys[1] == x);
        }
    }
    let chosen = sorted_keys(m);
    assert(strictly_sorted(chosen) && forall|x: u32| chosen.contains(x) <==> m.dom().contains(x));
    lemma_sorted_unique(chosen, keys);
    assert(next_seq(seq, p.take(k)) == s2);
    assert(keys.drop_first() =~= seq![s2]);
    assert(seq![s2].drop_first() =~= Seq::<u32>::empty());
    assert(chain(m, seq![s2], s2) == p.skip(k) + chain(m, Seq::<u32>::empty(), next_seq(s2, p.skip(k))));
    assert(p.take(k) + p.skip(k) + Seq::<u8>::empty() =~= p);
}

} // verus!
