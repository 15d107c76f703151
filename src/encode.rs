use vstd::prelude::*;

use crate::markers::{kind_of_tag, kind_tag, Diff, DiffKind};

verus! {

/// The four big-endian bytes of `x`.
pub open spec fn be_bytes(x: u32) -> Seq<u8> {
    seq![
        ((x >> 24u32) & 0xffu32) as u8,
        ((x >> 16u32) & 0xffu32) as u8,
        ((x >> 8u32) & 0xffu32) as u8,
        (x & 0xffu32) as u8,
    ]
}

/// The nine bytes of one marker: start line, end line, kind tag.
pub open spec fn record_bytes(d: Diff) -> Seq<u8> {
    be_bytes(d.start_line) + be_bytes(d.end_line) + seq![kind_tag(d.kind)]
}

/// The records of all markers, in order, with nothing between them.
pub open spec fn encode_spec(ms: Seq<Diff>) -> Seq<u8>
    decreases ms.len(),
{
    if ms.len() == 0 {
        Seq::empty()
    } else {
        encode_spec(ms.drop_last()) + record_bytes(ms.last())
    }
}

/// The big-endian number held by the four bytes of `b` from `at` on.
pub open spec fn be_u32_at(b: Seq<u8>, at: int) -> u32 {
    ((b[at] as u32) << 24u32) | ((b[at + 1] as u32) << 16u32) | ((b[at + 2] as u32) << 8u32) | (
    b[at + 3] as u32)
}

/// The marker read back from record `i` of `b`, if its kind byte is known.
pub open spec fn decode_record(b: Seq<u8>, i: int) -> Option<Diff> {
    match kind_of_tag(b[9 * i + 8]) {
        Some(k) => Some(Diff { start_line: be_u32_at(b, 9 * i), end_line: be_u32_at(b, 9 * i + 4), kind: k }),
        None => None,
    }
}

proof fn lemma_be_bytes_round_trip(x: u32)
    ensures
        be_u32_at(be_bytes(x), 0) == x,
{
    let b = be_bytes(x);
    let b0 = ((x >> 24u32) & 0xffu32) as u8;
    let b1 = ((x >> 16u32) & 0xffu32) as u8;
    let b2 = ((x >> 8u32) & 0xffu32) as u8;
    let b3 = (x & 0xffu32) as u8;
    assert(b[0] == b0 && b[1] == b1 && b[2] == b2 && b[3] == b3);
    assert(((b0 as u32) << 24u32) | ((b1 as u32) << 16u32) | ((b2 as u32) << 8u32) | (b3 as u32)
        == x) by (bit_vector)
        requires
            b0 == ((x >> 24u32) & 0xffu32) as u8,
            b1 == ((x >> 16u32) & 0xffu32) as u8,
            b2 == ((x >> 8u32) & 0xffu32) as u8,
            b3 == (x & 0xffu32) as u8,
    ;
}

/// Reading the encoding back in nine-byte records gives every marker, in
/// order, and there are exactly nine bytes per marker.
pub proof fn lemma_encode_round_trip(ms: Seq<Diff>)
    ensures
        encode_spec(ms).len() == 9 * ms.len(),
        forall|i: int| 0 <= i < ms.len() ==> decode_record(encode_spec(ms), i) == Some(#[trigger] ms[i]),
    decreases ms.len(),
{
    if ms.len() > 0 {
        let p = ms.drop_last();
        lemma_encode_round_trip(p);
        let d = ms.last();
        let b = encode_spec(ms);
        let rec = record_bytes(d);
        let n: int = p.len() as int;
        assert(b == encode_spec(p) + rec);
        assert forall|i: int| 0 <= i < ms.len() implies decode_record(b, i) == Some(#[trigger] ms[i]) by {
            if i < n {
                assert(ms[i] == p[i]);
                let q = encode_spec(p);
                assert(b[9 * i] == q[9 * i] && b[9 * i + 1] == q[9 * i + 1] && b[9 * i + 2] == q[9 * i + 2]
                    && b[9 * i + 3] == q[9 * i + 3]);
                assert(b[9 * i + 4] == q[9 * i + 4] && b[9 * i + 5] == q[9 * i + 5] && b[9 * i + 6] == q[9
                    * i + 6] && b[9 * i + 7] == q[9 * i + 7] && b[9 * i + 8] == q[9 * i + 8]);
                assert(be_u32_at(b, 9 * i) == be_u32_at(encode_spec(p), 9 * i));
                assert(be_u32_at(b, 9 * i + 4) == be_u32_at(encode_spec(p), 9 * i + 4));
            } else {
                assert(ms[i] == d);
                lemma_be_bytes_round_trip(d.start_line);
                lemma_be_bytes_round_trip(d.end_line);
                assert(b.subrange(9 * n, 9 * n + 4) =~= be_bytes(d.start_line));
                assert(b.subrange(9 * n + 4, 9 * n + 8) =~= be_bytes(d.end_line));
                assert(be_u32_at(b, 9 * i) == be_u32_at(b.subrange(9 * n, 9 * n + 4), 0));
                assert(be_u32_at(b, 9 * i + 4) == be_u32_at(b.subrange(9 * n + 4, 9 * n + 8), 0));
                assert(b[9 * i + 8] == kind_tag(d.kind));
            }
        }
    }
}

fn transform_u32_to_array_of_u8(x: u32) -> (r: [u8; 4])
    ensures
        r@ == be_bytes(x),
{
    let b1: u8 = ((x >> 24u32) & 0xffu32) as u8;
    let b2: u8 = ((x >> 16u32) & 0xffu32) as u8;
    let b3: u8 = ((x >> 8u32) & 0xffu32) as u8;
    let b4: u8 = (x & 0xffu32) as u8;
    let r = [b1, b2, b3, b4];
    assert(r@ =~= be_bytes(x));
    r
}

/// Packs the markers into nine-byte records: start line and end line as
/// big-endian `u32`, then the kind tag (`Add` 1, `Delete` 2, `Modify` 3).
pub fn encode_markers(ms: &Vec<Diff>) -> (r: Vec<u8>)
    ensures
        r@ == encode_spec(ms@),
        r@.len() == 9 * ms@.len(),
{
    let mut out: Vec<u8> = Vec::new();
    let mut i: usize = 0;
    while i < ms.len()
        invariant
            0 <= i <= ms@.len(),
            out@ == encode_spec(ms@.take(i as int)),
            out@.len() == 9 * i,
        decreases ms@.len() - i,
    {
        let d = ms[i];
        let s = transform_u32_to_array_of_u8(d.start_line);
        let e = transform_u32_to_array_of_u8(d.end_line);
        out.push(s[0]);
        out.push(s[1]);
        out.push(s[2]);
        out.push(s[3]);
        out.push(e[0]);
        out.push(e[1]);
        out.push(e[2]);
        out.push(e[3]);
        out.push(d.kind.tag());
        proof {
            assert(ms@.take(i + 1).drop_last() =~= ms@.take(i as int));
            assert(out@ =~= encode_spec(ms@.take(i as int)) + record_bytes(d));
        }
        i += 1;
    }
    assert(ms@.take(ms@.len() as int) =~= ms@);
    out
}

} // verus!
