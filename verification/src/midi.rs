//! Decoding a standard MIDI file into a flat, tick-sorted event list.
//!
//! The decoder walks the header chunk, then each declared track chunk,
//! skipping chunks of any other type. Within a track it reads
//! (delta-time, event) pairs, honouring running status, meta events
//! (set-tempo and end-of-track) and system-exclusive blocks. Every
//! position is modelled as a 64-bit offset into the byte source, as a
//! file offset would be; advancing past the end of the bytes makes the
//! next read fail. The whole decoder is specified by a spec-level
//! parser, `spec_parse_midi`, which pins down the exact result — events,
//! division and error alike — for every input.

use vstd::prelude::*;

use crate::vlq::read_varlen;
use crate::vlq::spec_read_varlen;
use crate::vlq::lemma_read_varlen_bounds;

verus! {

/// What a decoded event does: starts a note, ends a note, or changes
/// the tempo.
#[derive(Clone, Copy, Debug, PartialEq, Eq, Structural)]
pub enum EventKind {
    NoteOn,
    NoteOff,
    SetTempo,
}

/// One decoded event, stamped with the absolute tick of its track.
#[derive(Clone, Copy, Debug, PartialEq, Eq, Structural)]
pub struct MidiEvent {
    pub abs_tick: u32,
    pub kind: EventKind,
    pub channel: u8,
    pub note: u8,
    pub velocity: u8,
    pub tempo_micros: u32,
}

/// Why a decode fails: a malformed chunk structure, a feature this
/// decoder does not handle (SMPTE time division), or bytes running out
/// before an expected read.
#[derive(Clone, Copy, Debug, PartialEq, Eq, Structural)]
pub enum MidiError {
    FormatError,
    UnsupportedFeature,
    IOError,
}

/// The big-endian 16-bit value at `pos`.
pub open spec fn spec_be16(bytes: Seq<u8>, pos: int) -> u16 {
    (bytes[pos] * 0x100 + bytes[pos + 1]) as u16
}

/// The big-endian 32-bit value at `pos`.
pub open spec fn spec_be32(bytes: Seq<u8>, pos: int) -> u32 {
    (bytes[pos] * 0x1000000 + bytes[pos + 1] * 0x10000 + bytes[pos + 2] * 0x100 + bytes[pos
        + 3]) as u32
}

/// The big-endian 24-bit value at `pos` (a set-tempo payload).
pub open spec fn spec_be24(bytes: Seq<u8>, pos: int) -> u32 {
    (bytes[pos] * 0x10000 + bytes[pos + 1] * 0x100 + bytes[pos + 2]) as u32
}

/// Scans forward from `pos` until a track chunk header is found,
/// skipping any other chunk by its declared length; returns the offset
/// just past the four identifying bytes.
pub open spec fn spec_find_track(bytes: Seq<u8>, pos: int) -> Result<int, MidiError>
    decreases bytes.len() - pos,
{
    if pos + 4 > bytes.len() {
        Err(MidiError::IOError)
    } else if bytes[pos] == 0x4D && bytes[pos + 1] == 0x54 && bytes[pos + 2] == 0x72 && bytes[pos
        + 3] == 0x6B {
        Ok(pos + 4)
    } else if pos + 8 > bytes.len() {
        Err(MidiError::IOError)
    } else {
        let q = pos + 8 + spec_be32(bytes, pos + 4);
        if q + 4 > bytes.len() {
            Err(MidiError::IOError)
        } else {
            spec_find_track(bytes, q)
        }
    }
}

/// One track's event stream between `pos` and `end`: delta times
/// accumulate (wrapping as a 32-bit counter) into an absolute tick;
/// running status reuses the last status byte when a data byte appears
/// in its place. Returns the collected events and the offset at which
/// the track left the cursor.
pub open spec fn spec_parse_events(
    bytes: Seq<u8>,
    pos: int,
    end: int,
    tick: u32,
    running: u8,
    acc: Seq<MidiEvent>,
) -> Result<(Seq<MidiEvent>, int), MidiError>
    decreases end - pos,
    via spec_parse_events_decreases
{
    if pos >= end {
        Ok((acc, pos))
    } else {
        match spec_event_step(bytes, pos, tick, running, acc) {
            Err(e) => Err(e),
            Ok((acc2, tick2, running2, q)) => {
                if q == -1 {
                    // end-of-track meta: the cursor jumps to the track's end
                    Ok((acc2, end))
                } else if q >= end {
                    Ok((acc2, q))
                } else {
                    spec_parse_events(bytes, q, end, tick2, running2, acc2)
                }
            },
        }
    }
}

#[via_fn]
proof fn spec_parse_events_decreases(
    bytes: Seq<u8>,
    pos: int,
    end: int,
    tick: u32,
    running: u8,
    acc: Seq<MidiEvent>,
) {
    lemma_event_step_advances(bytes, pos, tick, running, acc);
}

/// A successful event step other than end-of-track moves the cursor
/// strictly forward.
proof fn lemma_event_step_advances(
    bytes: Seq<u8>,
    pos: int,
    tick: u32,
    running: u8,
    acc: Seq<MidiEvent>,
)
    ensures
        spec_event_step(bytes, pos, tick, running, acc) matches Ok((_, _, _, q)) ==> q == -1 || (
        pos < q && q <= bytes.len() + 0x1_0000_0002),
{
    lemma_read_varlen_bounds(bytes, pos, 0);
    match spec_read_varlen(bytes, pos, 0) {
        None => {},
        Some((delta, p1)) => {
            if p1 < bytes.len() {
                let b = bytes[p1];
                let p2: int = if b >= 0x80 {
                    p1 + 1
                } else {
                    p1
                };
                lemma_read_varlen_bounds(bytes, p2, 0);
                lemma_read_varlen_bounds(bytes, p2 + 1, 0);
            }
        },
    }
}

/// One (delta-time, event) pair at `pos`. Returns the events so far,
/// the new tick and running status, and the offset after the pair
/// (`-1` standing for an end-of-track meta event).
pub open spec fn spec_event_step(
    bytes: Seq<u8>,
    pos: int,
    tick: u32,
    running: u8,
    acc: Seq<MidiEvent>,
) -> Result<(Seq<MidiEvent>, u32, u8, int), MidiError> {
    match spec_read_varlen(bytes, pos, 0) {
        None => Err(MidiError::IOError),
        Some((delta, p1)) => {
            if p1 >= bytes.len() {
                Err(MidiError::IOError)
            } else {
                let tick2 = tick.wrapping_add(delta);
                let b = bytes[p1];
                let status = if b >= 0x80 {
                    b
                } else {
                    running
                };
                let running2 = status;
                let p2 = if b >= 0x80 {
                    p1 + 1
                } else {
                    p1
                };
                if status == 0xFF {
                    spec_meta_step(bytes, p2, tick2, running2, acc)
                } else if status == 0xF0 || status == 0xF7 {
                    match spec_read_varlen(bytes, p2, 0) {
                        None => Err(MidiError::IOError),
                        Some((len, p3)) => Ok((acc, tick2, running2, p3 + len)),
                    }
                } else {
                    spec_channel_step(bytes, p2, tick2, running2, status, acc)
                }
            }
        },
    }
}

/// A meta event: subtype byte, length, then payload. A three-byte
/// set-tempo payload becomes a `SetTempo` event; an end-of-track ends
/// the track (`-1`); everything else is skipped by its length.
pub open spec fn spec_meta_step(
    bytes: Seq<u8>,
    p2: int,
    tick2: u32,
    running2: u8,
    acc: Seq<MidiEvent>,
) -> Result<(Seq<MidiEvent>, u32, u8, int), MidiError> {
    if p2 >= bytes.len() {
        Err(MidiError::IOError)
    } else {
        let meta = bytes[p2];
        match spec_read_varlen(bytes, p2 + 1, 0) {
            None => Err(MidiError::IOError),
            Some((len, p3)) => {
                if meta == 0x51 && len == 3 {
                    if p3 + 3 > bytes.len() {
                        Err(MidiError::IOError)
                    } else {
                        let ev = MidiEvent {
                            abs_tick: tick2,
                            kind: EventKind::SetTempo,
                            channel: 0,
                            note: 0,
                            velocity: 0,
                            tempo_micros: spec_be24(bytes, p3),
                        };
                        Ok((acc.push(ev), tick2, running2, p3 + 3))
                    }
                } else if meta == 0x2F {
                    Ok((acc, tick2, running2, -1))
                } else {
                    Ok((acc, tick2, running2, p3 + len))
                }
            },
        }
    }
}

/// A channel voice message: note-on and note-off read two data bytes
/// and yield an event (a note-on with velocity zero counts as a
/// note-off); program-change and channel-pressure skip one data byte;
/// every other message skips two.
pub open spec fn spec_channel_step(
    bytes: Seq<u8>,
    p2: int,
    tick2: u32,
    running2: u8,
    status: u8,
    acc: Seq<MidiEvent>,
) -> Result<(Seq<MidiEvent>, u32, u8, int), MidiError> {
    let cmd = status & 0xF0;
    if cmd == 0x90 || cmd == 0x80 {
        if p2 + 2 > bytes.len() {
            Err(MidiError::IOError)
        } else {
            let vel = bytes[p2 + 1];
            let ev = MidiEvent {
                abs_tick: tick2,
                kind: if cmd == 0x90 && vel > 0 {
                    EventKind::NoteOn
                } else {
                    EventKind::NoteOff
                },
                channel: status & 0x0F,
                note: bytes[p2],
                velocity: vel,
                tempo_micros: 0,
            };
            Ok((acc.push(ev), tick2, running2, p2 + 2))
        }
    } else if cmd == 0xC0 || cmd == 0xD0 {
        Ok((acc, tick2, running2, p2 + 1))
    } else {
        Ok((acc, tick2, running2, p2 + 2))
    }
}

/// One whole track from `pos`: find the track chunk, read its length,
/// and parse its events.
pub open spec fn spec_parse_track(bytes: Seq<u8>, pos: int, acc: Seq<MidiEvent>) -> Result<
    (Seq<MidiEvent>, int),
    MidiError,
> {
    match spec_find_track(bytes, pos) {
        Err(e) => Err(e),
        Ok(p) => {
            if p + 4 > bytes.len() {
                Err(MidiError::IOError)
            } else {
                let body = p + 4;
                let end = body + spec_be32(bytes, p);
                spec_parse_events(bytes, body, end, 0, 0, acc)
            }
        },
    }
}

/// `n` tracks in a row, each starting where the previous one left the
/// cursor.
pub open spec fn spec_parse_tracks(
    bytes: Seq<u8>,
    pos: int,
    n: int,
    acc: Seq<MidiEvent>,
) -> Result<(Seq<MidiEvent>, int), MidiError>
    decreases n,
{
    if n <= 0 {
        Ok((acc, pos))
    } else {
        match spec_parse_track(bytes, pos, acc) {
            Err(e) => Err(e),
            Ok((acc2, q)) => spec_parse_tracks(bytes, q, n - 1, acc2),
        }
    }
}

/// The whole file: the `MThd` header with its format, track count and
/// division, then the declared number of tracks, and finally a stable
/// sort of all events by absolute tick.
pub open spec fn spec_parse_midi(bytes: Seq<u8>) -> Result<(Seq<MidiEvent>, u16), MidiError> {
    if bytes.len() < 4 {
        Err(MidiError::IOError)
    } else if !(bytes[0] == 0x4D && bytes[1] == 0x54 && bytes[2] == 0x68 && bytes[3] == 0x64) {
        Err(MidiError::FormatError)
    } else if bytes.len() < 14 {
        Err(MidiError::IOError)
    } else if spec_be16(bytes, 12) >= 0x8000 {
        Err(MidiError::UnsupportedFeature)
    } else {
        match spec_parse_tracks(bytes, 14, spec_be16(bytes, 10) as int, Seq::empty()) {
            Err(e) => Err(e),
            Ok((evs, _)) => Ok((stable_sorted_by_tick(evs), spec_be16(bytes, 12))),
        }
    }
}

/// Inserts `e` behind every event whose tick is at most `e`'s: the
/// insertion step of a stable insertion sort.
pub open spec fn insert_by_tick(s: Seq<MidiEvent>, e: MidiEvent) -> Seq<MidiEvent>
    decreases s.len(),
{
    if s.len() == 0 {
        seq![e]
    } else if s.last().abs_tick <= e.abs_tick {
        s.push(e)
    } else {
        insert_by_tick(s.drop_last(), e).push(s.last())
    }
}

/// The stable sort of `s` by absolute tick: events with equal ticks
/// keep their relative order.
pub open spec fn stable_sorted_by_tick(s: Seq<MidiEvent>) -> Seq<MidiEvent>
    decreases s.len(),
{
    if s.len() == 0 {
        Seq::empty()
    } else {
        insert_by_tick(stable_sorted_by_tick(s.drop_last()), s.last())
    }
}

/// Non-decreasing absolute ticks.
pub open spec fn sorted_by_tick(s: Seq<MidiEvent>) -> bool {
    forall|i: int, j: int| 0 <= i <= j < s.len() ==> s[i].abs_tick <= s[j].abs_tick
}

/// Every tick bound of a sequence carries over to an insertion.
proof fn lemma_insert_by_tick_le(s: Seq<MidiEvent>, e: MidiEvent, m: u32)
    requires
        forall|i: int| 0 <= i < s.len() ==> s[i].abs_tick <= m,
        e.abs_tick <= m,
    ensures
        forall|i: int|
            0 <= i < insert_by_tick(s, e).len() ==> insert_by_tick(s, e)[i].abs_tick <= m,
    decreases s.len(),
{
    if s.len() != 0 && s.last().abs_tick > e.abs_tick {
        lemma_insert_by_tick_le(s.drop_last(), e, m);
    }
}

/// Inserting into a tick-sorted sequence keeps it sorted.
proof fn lemma_insert_by_tick_sorted(s: Seq<MidiEvent>, e: MidiEvent)
    requires
        sorted_by_tick(s),
    ensures
        sorted_by_tick(insert_by_tick(s, e)),
    decreases s.len(),
{
    if s.len() == 0 {
    } else if s.last().abs_tick <= e.abs_tick {
        assert(forall|i: int| 0 <= i < s.len() ==> s[i].abs_tick <= s.last().abs_tick);
    } else {
        assert(sorted_by_tick(s.drop_last()));
        lemma_insert_by_tick_sorted(s.drop_last(), e);
        lemma_insert_by_tick_le(s.drop_last(), e, s.last().abs_tick);
    }
}

/// The stable sort really sorts: its result has non-decreasing ticks.
pub proof fn lemma_stable_sort_sorted(s: Seq<MidiEvent>)
    ensures
        sorted_by_tick(stable_sorted_by_tick(s)),
    decreases s.len(),
{
    if s.len() != 0 {
        lemma_stable_sort_sorted(s.drop_last());
        lemma_insert_by_tick_sorted(stable_sorted_by_tick(s.drop_last()), s.last());
    }
}

/// The sort is stable: a sequence that is already in order — in
/// particular, any run of events on one and the same tick — comes out
/// unchanged, so same-tick events keep their source order.
pub proof fn lemma_stable_sort_keeps_sorted_order(s: Seq<MidiEvent>)
    requires
        sorted_by_tick(s),
    ensures
        stable_sorted_by_tick(s) == s,
    decreases s.len(),
{
    if s.len() != 0 {
        assert(sorted_by_tick(s.drop_last()));
        lemma_stable_sort_keeps_sorted_order(s.drop_last());
        if s.len() >= 2 {
            assert(s.drop_last().last().abs_tick <= s.last().abs_tick);
        }
        assert(insert_by_tick(s.drop_last(), s.last()) == s.drop_last().push(s.last()));
        assert(s.drop_last().push(s.last()) =~= s);
    }
}

/// The stable sort is a permutation: it keeps exactly the events of its
/// input, multiplicities included.
pub proof fn lemma_stable_sort_permutes(s: Seq<MidiEvent>)
    ensures
        stable_sorted_by_tick(s).to_multiset() == s.to_multiset(),
    decreases s.len(),
{
    broadcast use vstd::seq_lib::group_to_multiset_ensures;

    if s.len() != 0 {
        lemma_stable_sort_permutes(s.drop_last());
        lemma_insert_by_tick_multiset(stable_sorted_by_tick(s.drop_last()), s.last());
        assert(s.drop_last().push(s.last()) =~= s);
    }
}

proof fn lemma_insert_by_tick_multiset(s: Seq<MidiEvent>, e: MidiEvent)
    ensures
        insert_by_tick(s, e).to_multiset() == s.to_multiset().insert(e),
    decreases s.len(),
{
    broadcast use vstd::seq_lib::group_to_multiset_ensures;

    if s.len() == 0 {
        assert(seq![e] =~= Seq::<MidiEvent>::empty().push(e));
    } else if s.last().abs_tick <= e.abs_tick {
    } else {
        lemma_insert_by_tick_multiset(s.drop_last(), e);
        assert(s.drop_last().push(s.last()) =~= s);
        assert(s.drop_last().to_multiset().insert(s.last()) == s.to_multiset());
        assert(insert_by_tick(s, e).to_multiset() == insert_by_tick(
            s.drop_last(),
            e,
        ).to_multiset().insert(s.last()));
        assert(s.to_multiset().insert(e) =~= s.drop_last().to_multiset().insert(e).insert(
            s.last(),
        ));
    }
}

/// Reads a variable-length quantity at a 64-bit offset; the offset may
/// lie past the end of the bytes, in which case the read fails.
fn vlq_at(bytes: &[u8], p: u64) -> (r: Option<(u32, u64)>)
    ensures
        match r {
            Some((v, end)) => {
                &&& spec_read_varlen(bytes@, p as int, 0) == Some((v, end as int))
                &&& p < end <= bytes@.len()
            },
            None => spec_read_varlen(bytes@, p as int, 0) is None,
        },
{
    let n = bytes.len();
    if p >= n as u64 {
        return None;
    }
    match read_varlen(bytes, p as usize) {
        None => None,
        Some((v, end)) => Some((v, end as u64)),
    }
}

/// Reads the big-endian 16-bit value at `pos`, and the position just
/// past it; `None` when fewer than two bytes remain.
pub fn read_u16_be(bytes: &[u8], pos: usize) -> (r: Option<(u16, usize)>)
    ensures
        match r {
            Some((v, end)) => {
                &&& pos + 2 <= bytes@.len()
                &&& v == spec_be16(bytes@, pos as int)
                &&& end == pos + 2
            },
            None => pos + 2 > bytes@.len(),
        },
{
    let n = bytes.len();
    if n < 2 || pos > n - 2 {
        return None;
    }
    let v = (bytes[pos] as u16) * 0x100 + (bytes[pos + 1] as u16);
    Some((v, pos + 2))
}

/// Reads the big-endian 32-bit value at `pos`, and the position just
/// past it; `None` when fewer than four bytes remain.
pub fn read_u32_be(bytes: &[u8], pos: usize) -> (r: Option<(u32, usize)>)
    ensures
        match r {
            Some((v, end)) => {
                &&& pos + 4 <= bytes@.len()
                &&& v == spec_be32(bytes@, pos as int)
                &&& end == pos + 4
            },
            None => pos + 4 > bytes@.len(),
        },
{
    let n = bytes.len();
    if n < 4 || pos > n - 4 {
        return None;
    }
    let v = (bytes[pos] as u32) * 0x1000000 + (bytes[pos + 1] as u32) * 0x10000 + (bytes[pos
        + 2] as u32) * 0x100 + (bytes[pos + 3] as u32);
    Some((v, pos + 4))
}

/// Reads one (delta-time, event) pair at `p`, mirroring
/// `spec_event_step`; `None` in place of the offset stands for an
/// end-of-track meta event.
#[verifier::loop_isolation(false)]
fn event_step(bytes: &[u8], p: u64, tick: u32, running: u8, events: Vec<MidiEvent>) -> (r: Result<
    (Vec<MidiEvent>, u32, u8, Option<u64>),
    MidiError,
>)
    requires
        bytes@.len() + 0x1_0000_0010 < u64::MAX,
    ensures
        match (r, spec_event_step(bytes@, p as int, tick, running, events@)) {
            (Ok((evs2, t2, r2, q)), Ok((sevs, st, sr, sq))) => {
                &&& evs2@ == sevs
                &&& t2 == st
                &&& r2 == sr
                &&& match q {
                    None => sq == -1,
                    Some(qq) => qq == sq,
                }
            },
            (Err(e), Err(se)) => e == se,
            _ => false,
        },
{
    let nlen: u64 = bytes.len() as u64;
    let mut evs = events;
    let (delta, p1) = match vlq_at(bytes, p) {
        None => {
            return Err(MidiError::IOError);
        },
        Some(x) => x,
    };
    if p1 >= nlen {
        return Err(MidiError::IOError);
    }
    let tick2 = tick.wrapping_add(delta);
    let b = bytes[p1 as usize];
    let status: u8;
    let p2: u64;
    if b >= 0x80 {
        status = b;
        p2 = p1 + 1;
    } else {
        status = running;
        p2 = p1;
    }
    if status == 0xFF {
        if p2 >= nlen {
            return Err(MidiError::IOError);
        }
        let meta = bytes[p2 as usize];
        let (len, p3) = match vlq_at(bytes, p2 + 1) {
            None => {
                return Err(MidiError::IOError);
            },
            Some(x) => x,
        };
        if meta == 0x51 && len == 3 {
            if nlen < 3 || p3 > nlen - 3 {
                return Err(MidiError::IOError);
            }
            let i = p3 as usize;
            let micros = (bytes[i] as u32) * 0x10000 + (bytes[i + 1] as u32) * 0x100 + (bytes[i
                + 2] as u32);
            evs.push(
                MidiEvent {
                    abs_tick: tick2,
                    kind: EventKind::SetTempo,
                    channel: 0,
                    note: 0,
                    velocity: 0,
                    tempo_micros: micros,
                },
            );
            Ok((evs, tick2, status, Some(p3 + 3)))
        } else if meta == 0x2F {
            Ok((evs, tick2, status, None))
        } else {
            Ok((evs, tick2, status, Some(p3 + (len as u64))))
        }
    } else if status == 0xF0 || status == 0xF7 {
        let (len, p3) = match vlq_at(bytes, p2) {
            None => {
                return Err(MidiError::IOError);
            },
            Some(x) => x,
        };
        Ok((evs, tick2, status, Some(p3 + (len as u64))))
    } else {
        let cmd = status & 0xF0;
        if cmd == 0x90 || cmd == 0x80 {
            if nlen < 2 || p2 > nlen - 2 {
                return Err(MidiError::IOError);
            }
            let i = p2 as usize;
            let note = bytes[i];
            let vel = bytes[i + 1];
            evs.push(
                MidiEvent {
                    abs_tick: tick2,
                    kind: if cmd == 0x90 && vel > 0 {
                        EventKind::NoteOn
                    } else {
                        EventKind::NoteOff
                    },
                    channel: status & 0x0F,
                    note,
                    velocity: vel,
                    tempo_micros: 0,
                },
            );
            Ok((evs, tick2, status, Some(p2 + 2)))
        } else if cmd == 0xC0 || cmd == 0xD0 {
            Ok((evs, tick2, status, Some(p2 + 1)))
        } else {
            Ok((evs, tick2, status, Some(p2 + 2)))
        }
    }
}

/// Parses one track's events between `start` and `end`, appending to
/// `events`; returns the events and the offset the track left the
/// cursor at.
#[verifier::loop_isolation(false)]
fn parse_track_events(bytes: &[u8], start: u64, end: u64, events: Vec<MidiEvent>) -> (r: Result<
    (Vec<MidiEvent>, u64),
    MidiError,
>)
    requires
        bytes@.len() + 0x1_0000_0010 < u64::MAX,
    ensures
        match (r, spec_parse_events(bytes@, start as int, end as int, 0, 0, events@)) {
            (Ok((evs, q)), Ok((sevs, sq))) => evs@ == sevs && q == sq,
            (Err(e), Err(se)) => e == se,
            _ => false,
        },
{
    let ghost orig = spec_parse_events(bytes@, start as int, end as int, 0, 0, events@);
    let mut p = start;
    let mut tick: u32 = 0;
    let mut running: u8 = 0;
    let mut evs = events;
    loop
        invariant
            orig == spec_parse_events(bytes@, p as int, end as int, tick, running, evs@),
        decreases end as int - p as int,
    {
        if p >= end {
            return Ok((evs, p));
        }
        proof {
            lemma_event_step_advances(bytes@, p as int, tick, running, evs@);
        }
        match event_step(bytes, p, tick, running, evs) {
            Err(e) => {
                return Err(e);
            },
            Ok((evs2, tick2, running2, qo)) => {
                match qo {
                    None => {
                        return Ok((evs2, end));
                    },
                    Some(q) => {
                        if q >= end {
                            return Ok((evs2, q));
                        }
                        evs = evs2;
                        p = q;
                        tick = tick2;
                        running = running2;
                    },
                }
            },
        }
    }
}

/// Scans forward from `start` to the first track chunk header.
#[verifier::loop_isolation(false)]
fn find_track(bytes: &[u8], start: u64) -> (r: Result<u64, MidiError>)
    requires
        bytes@.len() + 0x1_0000_0010 < u64::MAX,
    ensures
        match (r, spec_find_track(bytes@, start as int)) {
            (Ok(p), Ok(sp)) => p == sp,
            (Err(e), Err(se)) => e == se,
            _ => false,
        },
{
    let nlen: u64 = bytes.len() as u64;
    let mut p = start;
    loop
        invariant
            bytes@.len() + 0x1_0000_0010 < u64::MAX,
            nlen == bytes@.len(),
            spec_find_track(bytes@, start as int) == spec_find_track(bytes@, p as int),
        decreases bytes@.len() - p as int,
    {
        if nlen < 4 || p > nlen - 4 {
            return Err(MidiError::IOError);
        }
        let i = p as usize;
        if bytes[i] == 0x4D && bytes[i + 1] == 0x54 && bytes[i + 2] == 0x72 && bytes[i + 3] == 0x6B
         {
            return Ok(p + 4);
        }
        if nlen < 8 || p > nlen - 8 {
            return Err(MidiError::IOError);
        }
        let (skip, _) = match read_u32_be(bytes, (p + 4) as usize) {
            None => {
                return Err(MidiError::IOError);
            },
            Some(x) => x,
        };
        let q = p + 8 + (skip as u64);
        if nlen < 4 || q > nlen - 4 {
            return Err(MidiError::IOError);
        }
        p = q;
    }
}

/// Decodes a whole MIDI file held in `bytes`: validates the header,
/// parses each track, and returns the events of all tracks sorted
/// stably by absolute tick, together with the tick division, or the
/// first error met. The result — success and failure alike — is exactly
/// `spec_parse_midi(bytes@)`.
#[verifier::loop_isolation(false)]
pub fn parse_midi(bytes: &[u8]) -> (r: Result<(Vec<MidiEvent>, u16), MidiError>)
    requires
        bytes@.len() < 0x8000_0000_0000_0000,
    ensures
        match (r, spec_parse_midi(bytes@)) {
            (Ok((evs, div)), Ok((sevs, sdiv))) => evs@ == sevs && div == sdiv,
            (Err(e), Err(se)) => e == se,
            _ => false,
        },
        r matches Ok((evs, _)) ==> sorted_by_tick(evs@),
{
    let n = bytes.len();
    if n < 4 {
        return Err(MidiError::IOError);
    }
    if !(bytes[0] == 0x4D && bytes[1] == 0x54 && bytes[2] == 0x68 && bytes[3] == 0x64) {
        return Err(MidiError::FormatError);
    }
    if n < 14 {
        return Err(MidiError::IOError);
    }
    let (num_tracks, _) = match read_u16_be(bytes, 10) {
        None => {
            return Err(MidiError::IOError);
        },
        Some(x) => x,
    };
    let (division, _) = match read_u16_be(bytes, 12) {
        None => {
            return Err(MidiError::IOError);
        },
        Some(x) => x,
    };
    if division >= 0x8000 {
        return Err(MidiError::UnsupportedFeature);
    }
    let nlen: u64 = n as u64;
    let mut evs: Vec<MidiEvent> = Vec::new();
    proof {
        assert(evs@ =~= Seq::<MidiEvent>::empty());
    }
    let mut p: u64 = 14;
    let mut t: u16 = 0;
    while t < num_tracks
        invariant
            bytes@.len() + 0x1_0000_0010 < u64::MAX,
            nlen == bytes@.len(),
            t <= num_tracks,
            spec_parse_tracks(bytes@, 14, num_tracks as int, Seq::empty()) == spec_parse_tracks(
                bytes@,
                p as int,
                num_tracks - t,
                evs@,
            ),
        decreases num_tracks - t,
    {
        let ghost track = spec_parse_track(bytes@, p as int, evs@);
        let hdr = match find_track(bytes, p) {
            Err(e) => {
                return Err(e);
            },
            Ok(x) => x,
        };
        if nlen < 4 || hdr > nlen - 4 {
            return Err(MidiError::IOError);
        }
        let (track_len, _) = match read_u32_be(bytes, hdr as usize) {
            None => {
                return Err(MidiError::IOError);
            },
            Some(x) => x,
        };
        let body = hdr + 4;
        let end = body + (track_len as u64);
        match parse_track_events(bytes, body, end, evs) {
            Err(e) => {
                return Err(e);
            },
            Ok((evs2, q)) => {
                assert(track == Ok::<_, MidiError>((evs2@, q as int)));
                evs = evs2;
                p = q;
            },
        }
        t = t + 1;
    }
    let sorted = sort_events(evs);
    proof {
        lemma_stable_sort_sorted(evs@);
    }
    Ok((sorted, division))
}

/// Inserts `e` into the tick-sorted vector `out`, behind every event
/// whose tick is at most `e`'s.
#[verifier::loop_isolation(false)]
fn insert_event(out: &mut Vec<MidiEvent>, e: MidiEvent)
    ensures
        final(out)@ == insert_by_tick(old(out)@, e),
{
    let mut j = out.len();
    proof {
        assert(out@.take(out@.len() as int) =~= out@);
        assert(out@.skip(out@.len() as int) =~= Seq::<MidiEvent>::empty());
        assert(insert_by_tick(out@, e) + Seq::<MidiEvent>::empty() =~= insert_by_tick(out@, e));
    }
    while j > 0 && out[j - 1].abs_tick > e.abs_tick
        invariant
            j <= out@.len(),
            insert_by_tick(out@, e) == insert_by_tick(out@.take(j as int), e) + out@.skip(j as int),
        decreases j,
    {
        proof {
            assert(out@.take(j as int).drop_last() =~= out@.take(j - 1 as int));
            assert(insert_by_tick(out@.take(j - 1 as int), e).push(out@[j - 1]) + out@.skip(
                j as int,
            ) =~= insert_by_tick(out@.take(j - 1 as int), e) + out@.skip(j - 1 as int));
        }
        j = j - 1;
    }
    proof {
        if j > 0 {
            assert(out@.take(j as int).last().abs_tick <= e.abs_tick);
            assert(insert_by_tick(out@.take(j as int), e) == out@.take(j as int).push(e));
        } else {
            assert(out@.take(0int) =~= Seq::<MidiEvent>::empty());
        }
        assert(out@.take(j as int).push(e) + out@.skip(j as int) =~= out@.insert(j as int, e));
    }
    out.insert(j, e);
}

/// Sorts events stably by absolute tick (insertion sort): the result is
/// exactly `stable_sorted_by_tick` of the input.
#[verifier::loop_isolation(false)]
pub fn sort_events(events: Vec<MidiEvent>) -> (r: Vec<MidiEvent>)
    ensures
        r@ == stable_sorted_by_tick(events@),
{
    let mut out: Vec<MidiEvent> = Vec::new();
    let mut i: usize = 0;
    while i < events.len()
        invariant
            i <= events@.len(),
            out@ == stable_sorted_by_tick(events@.take(i as int)),
        decreases events@.len() - i,
    {
        proof {
            assert(events@.take(i + 1 as int).drop_last() =~= events@.take(i as int));
            assert(events@.take(i + 1 as int).last() == events@[i as int]);
        }
        insert_event(&mut out, events[i]);
        i = i + 1;
    }
    proof {
        assert(events@.take(events@.len() as int) =~= events@);
    }
    out
}

} // verus!
