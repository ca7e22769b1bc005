//! Variable-length quantities: the 7-bit, big-endian integer encoding used
//! for delta times and lengths in the event stream.
//!
//! A quantity is stored as a sequence of 7-bit groups, most significant
//! first; every byte except the last has its top bit set. The decoder
//! accepts any number of bytes, folding each group into a 32-bit
//! accumulator (older bits fall off the top, as a 32-bit register would
//! lose them).

use vstd::prelude::*;

verus! {

/// One decoding step: shift the accumulator left by seven bits (within
/// 32 bits) and fold in the payload of the next byte.
pub open spec fn vlq_step(acc: u32, b: u8) -> u32 {
    (((acc % 0x2000000) * 128) + (b % 128)) as u32
}

/// Reading a variable-length quantity from `bytes` at `pos` with the
/// accumulator `acc`: `None` when the bytes run out before a byte with a
/// clear top bit, otherwise the value and the position just past it.
pub open spec fn spec_read_varlen(bytes: Seq<u8>, pos: int, acc: u32) -> Option<(u32, int)>
    decreases bytes.len() - pos,
{
    if pos < 0 || pos >= bytes.len() {
        None
    } else {
        let b = bytes[pos];
        let v = vlq_step(acc, b);
        if b < 128 {
            Some((v, pos + 1))
        } else {
            spec_read_varlen(bytes, pos + 1, v)
        }
    }
}

/// The 7-bit groups of `v`, most significant first, without continuation
/// bits; at least one group, each below 128.
pub open spec fn vlq_groups(v: u32) -> Seq<u8>
    decreases v,
{
    if v < 128 {
        seq![v as u8]
    } else {
        vlq_groups(v / 128).push((v % 128) as u8)
    }
}

/// The encoded bytes: the groups of `v`, with the top bit set on every
/// byte but the last.
pub open spec fn spec_encode_varlen(v: u32) -> Seq<u8> {
    let g = vlq_groups(v);
    Seq::new(g.len(), |i: int| if i == g.len() - 1 { g[i] } else { (g[i] + 128) as u8 })
}

/// Reads one variable-length quantity starting at `pos`, returning the
/// value and the position just past its last byte, or `None` when the
/// bytes end before the quantity does.
pub fn read_varlen(bytes: &[u8], pos: usize) -> (r: Option<(u32, usize)>)
    ensures
        match r {
            Some((v, end)) => {
                &&& spec_read_varlen(bytes@, pos as int, 0) == Some((v, end as int))
                &&& pos < end <= bytes@.len()
            },
            None => spec_read_varlen(bytes@, pos as int, 0) is None,
        },
{
    let n = bytes.len();
    let mut p = pos;
    let mut value: u32 = 0;
    loop
        invariant
            pos <= p,
            n == bytes@.len(),
            spec_read_varlen(bytes@, pos as int, 0) == spec_read_varlen(bytes@, p as int, value),
        ensures
            p < n && bytes@[p as int] < 128,
        decreases bytes@.len() - p,
    {
        if p >= n {
            return None;
        }
        let c = bytes[p];
        if c < 128 {
            break;
        }
        value = ((value % 0x2000000) * 128) + ((c % 128) as u32);
        p = p + 1;
    }
    let c = bytes[p];
    let v2: u32 = ((value % 0x2000000) * 128) + ((c % 128) as u32);
    Some((v2, p + 1))
}

/// Appends the 7-bit groups of `v`, most significant first.
fn push_groups(v: u32, out: &mut Vec<u8>)
    ensures
        final(out)@ == old(out)@ + vlq_groups(v),
    decreases v,
{
    if v < 128 {
        out.push(v as u8);
    } else {
        push_groups(v / 128, out);
        out.push((v % 128) as u8);
        assert(out@ =~= old(out)@ + vlq_groups(v));
    }
}

proof fn lemma_groups_bounded(v: u32)
    ensures
        vlq_groups(v).len() >= 1,
        forall|i: int| 0 <= i < vlq_groups(v).len() ==> vlq_groups(v)[i] < 128,
    decreases v,
{
    if v >= 128 {
        lemma_groups_bounded(v / 128);
    }
}

/// Encodes `v` as a variable-length quantity.
pub fn encode_varlen(v: u32) -> (r: Vec<u8>)
    ensures
        r@ == spec_encode_varlen(v),
        r@.len() >= 1,
{
    proof {
        lemma_groups_bounded(v);
    }
    let mut g: Vec<u8> = Vec::new();
    push_groups(v, &mut g);
    let n = g.len();
    let mut i: usize = 0;
    while i + 1 < n
        invariant
            n == g@.len(),
            i < n,
            g@.len() == vlq_groups(v).len(),
            forall|j: int| i <= j < n ==> g@[j] == vlq_groups(v)[j],
            forall|j: int| 0 <= j < i ==> g@[j] == spec_encode_varlen(v)[j],
            forall|j: int| 0 <= j < vlq_groups(v).len() ==> vlq_groups(v)[j] < 128,
        decreases n - i,
    {
        let b = g[i];
        g.set(i, b + 128);
        i = i + 1;
    }
    assert(g@ =~= spec_encode_varlen(v));
    g
}

/// Folds a sequence of 7-bit groups into an accumulator, one decoding
/// step per group.
pub open spec fn vlq_fold(groups: Seq<u8>, acc: u32) -> u32
    decreases groups.len(),
{
    if groups.len() == 0 {
        acc
    } else {
        vlq_fold(groups.drop_first(), vlq_step(acc, groups[0]))
    }
}

/// A successful read ends strictly past its start and within the bytes.
pub proof fn lemma_read_varlen_bounds(bytes: Seq<u8>, pos: int, acc: u32)
    ensures
        spec_read_varlen(bytes, pos, acc) matches Some((v, end)) ==> pos < end <= bytes.len(),
    decreases bytes.len() - pos,
{
    if 0 <= pos < bytes.len() && bytes[pos] >= 128 {
        lemma_read_varlen_bounds(bytes, pos + 1, vlq_step(acc, bytes[pos]));
    }
}

/// Decoding a stretch of bytes whose first `g.len() - 1` bytes carry the
/// groups `g` with their top bits set, and whose next byte is the last
/// group bare, folds exactly those groups.
proof fn lemma_read_marked(bytes: Seq<u8>, pos: int, acc: u32, g: Seq<u8>)
    requires
        g.len() >= 1,
        0 <= pos,
        pos + g.len() <= bytes.len(),
        forall|i: int| 0 <= i < g.len() ==> g[i] < 128,
        forall|i: int| 0 <= i < g.len() - 1 ==> bytes[pos + i] == (g[i] + 128) as u8,
        bytes[pos + g.len() - 1] == g[g.len() - 1],
    ensures
        spec_read_varlen(bytes, pos, acc) == Some((vlq_fold(g, acc), pos + g.len())),
    decreases g.len(),
{
    if g.len() == 1 {
        assert(bytes[pos] == g[0]);
        assert(vlq_fold(g, acc) == vlq_fold(g.drop_first(), vlq_step(acc, g[0])));
    } else {
        let b = bytes[pos];
        assert(b == (g[0] + 128) as u8);
        assert(b % 128 == g[0]);
        assert(vlq_step(acc, b) == vlq_step(acc, g[0]));
        let g2 = g.drop_first();
        assert(forall|i: int| 0 <= i < g2.len() - 1 ==> bytes[pos + 1 + i] == (g2[i] + 128) as u8);
        assert(bytes[pos + 1 + g2.len() - 1] == g2[g2.len() - 1]);
        lemma_read_marked(bytes, pos + 1, vlq_step(acc, g[0]), g2);
    }
}

proof fn lemma_fold_push(g: Seq<u8>, x: u8, acc: u32)
    ensures
        vlq_fold(g.push(x), acc) == vlq_step(vlq_fold(g, acc), x),
    decreases g.len(),
{
    if g.len() == 0 {
        assert(g.push(x)[0] == x);
        assert(g.push(x).drop_first() =~= Seq::<u8>::empty());
        assert(vlq_fold(g.push(x), acc) == vlq_fold(Seq::<u8>::empty(), vlq_step(acc, x)));
    } else {
        assert(g.push(x)[0] == g[0]);
        assert(g.push(x).drop_first() =~= g.drop_first().push(x));
        lemma_fold_push(g.drop_first(), x, vlq_step(acc, g[0]));
        assert(vlq_fold(g.push(x), acc) == vlq_fold(g.drop_first().push(x), vlq_step(acc, g[0])));
    }
}

proof fn lemma_fold_groups(v: u32)
    ensures
        vlq_fold(vlq_groups(v), 0) == v,
    decreases v,
{
    if v >= 128 {
        let w = (v / 128) as u32;
        let x = (v % 128) as u8;
        lemma_fold_groups(w);
        lemma_fold_push(vlq_groups(w), x, 0);
        assert(vlq_fold(vlq_groups(v), 0) == vlq_fold(vlq_groups(w).push(x), 0));
        assert(vlq_fold(vlq_groups(w).push(x), 0) == vlq_step(vlq_fold(vlq_groups(w), 0), x));
        assert(vlq_step(w, x) == ((w % 0x2000000) * 128 + (x % 128)) as u32);
        assert(w < 0x2000000) by (nonlinear_arith)
            requires w == v / 128 && v <= u32::MAX
        ;
        vstd::arithmetic::div_mod::lemma_fundamental_div_mod(v as int, 128);
        assert((w % 0x2000000) * 128 + (x % 128) == v);
        assert(vlq_step(w, x) == v);
        assert(vlq_fold(vlq_groups(v), 0) == v);
    } else {
        assert(vlq_groups(v) == seq![v as u8]);
        assert(vlq_groups(v)[0] == v as u8);
        assert(vlq_groups(v).drop_first() =~= Seq::<u8>::empty());
        assert(vlq_fold(vlq_groups(v), 0) == vlq_step(0, v as u8)) by {
            reveal_with_fuel(vlq_fold, 2);
        }
        assert(vlq_step(0, v as u8) == v);
    }
}

/// Round trip for one value: the decoder, run on the encoding of `v`
/// followed by anything at all, returns `v` and stops exactly at the end
/// of the encoding.
pub proof fn lemma_vlq_round_trip(v: u32, suffix: Seq<u8>)
    ensures
        spec_read_varlen(spec_encode_varlen(v) + suffix, 0, 0) == Some(
            (v, spec_encode_varlen(v).len() as int),
        ),
        spec_encode_varlen(v).len() >= 1,
{
    lemma_groups_bounded(v);
    let g = vlq_groups(v);
    let bytes = spec_encode_varlen(v) + suffix;
    assert(forall|i: int| 0 <= i < g.len() - 1 ==> bytes[0 + i] == (g[i] + 128) as u8);
    assert(bytes[0 + g.len() - 1] == g[g.len() - 1]);
    lemma_read_marked(bytes, 0, 0, g);
    lemma_fold_groups(v);
}

/// The concatenated encodings of a sequence of values.
pub open spec fn spec_encode_stream(vs: Seq<u32>) -> Seq<u8>
    decreases vs.len(),
{
    if vs.len() == 0 {
        Seq::empty()
    } else {
        spec_encode_varlen(vs[0]) + spec_encode_stream(vs.drop_first())
    }
}

/// Decoding variable-length quantities one after the other until the
/// bytes are exhausted; `None` when a quantity is cut short.
pub open spec fn spec_decode_stream(bytes: Seq<u8>, pos: int) -> Option<Seq<u32>>
    decreases bytes.len() - pos,
    when 0 <= pos <= bytes.len()
    via spec_decode_stream_decreases
{
    if pos == bytes.len() {
        Some(Seq::empty())
    } else {
        match spec_read_varlen(bytes, pos, 0) {
            None => None,
            Some((v, end)) => match spec_decode_stream(bytes, end) {
                None => None,
                Some(rest) => Some(seq![v] + rest),
            },
        }
    }
}

#[via_fn]
proof fn spec_decode_stream_decreases(bytes: Seq<u8>, pos: int) {
    lemma_read_varlen_bounds(bytes, pos, 0);
}

proof fn lemma_stream_round_trip_at(vs: Seq<u32>, bytes: Seq<u8>, pos: int)
    requires
        0 <= pos <= bytes.len(),
        bytes.subrange(pos, bytes.len() as int) == spec_encode_stream(vs),
    ensures
        spec_decode_stream(bytes, pos) == Some(vs),
    decreases vs.len(),
{
    if vs.len() == 0 {
        assert(pos == bytes.len());
    } else {
        lemma_groups_bounded(vs[0]);
        let g = vlq_groups(vs[0]);
        let enc = spec_encode_varlen(vs[0]);
        let tail = spec_encode_stream(vs.drop_first());
        let sub = bytes.subrange(pos, bytes.len() as int);
        assert(sub == enc + tail);
        assert(sub.len() == enc.len() + tail.len());
        assert forall|i: int| 0 <= i < enc.len() implies bytes[pos + i] == enc[i] by {
            assert(sub[i] == (enc + tail)[i]);
            assert((enc + tail)[i] == enc[i]);
            assert(sub[i] == bytes[pos + i]);
        }
        assert forall|i: int| 0 <= i < g.len() - 1 implies bytes[pos + i] == (g[i] + 128) as u8 by {
            assert(enc[i] == (g[i] + 128) as u8);
        }
        assert(enc[g.len() - 1] == g[g.len() - 1]);
        assert(bytes[pos + g.len() - 1] == g[g.len() - 1]);
        lemma_read_marked(bytes, pos, 0, g);
        lemma_fold_groups(vs[0]);
        let end = pos + enc.len();
        let sub2 = bytes.subrange(end, bytes.len() as int);
        assert(sub2.len() == tail.len());
        assert forall|i: int| 0 <= i < tail.len() implies sub2[i] == tail[i] by {
            assert(sub2[i] == bytes[end + i]);
            assert(sub[enc.len() + i] == bytes[pos + (enc.len() + i)]);
            assert((enc + tail)[enc.len() + i] == tail[i]);
        }
        assert(sub2 =~= tail);
        lemma_stream_round_trip_at(vs.drop_first(), bytes, end);
        assert(seq![vs[0]] + vs.drop_first() =~= vs);
    }
}

/// Round trip for a whole stream: encoding any sequence of 32-bit values
/// and decoding the concatenation reproduces the sequence exactly.
pub proof fn lemma_vlq_stream_round_trip(vs: Seq<u32>)
    ensures
        spec_decode_stream(spec_encode_stream(vs), 0) == Some(vs),
{
    let bytes = spec_encode_stream(vs);
    assert(bytes.subrange(0, bytes.len() as int) =~= bytes);
    lemma_stream_round_trip_at(vs, bytes, 0);
}

} // verus!
