//! Reconstructing notes from the tick-sorted event stream.
//!
//! A running clock in integer microseconds is advanced, before each
//! event takes effect, by `delta_ticks * tempo / division`: a tempo
//! change therefore rescales only the intervals after it, never the
//! elapsed time before it. A 16 x 128 table of voice slots (channel x
//! pitch) holds the start time and velocity of each currently sounding
//! note; a note-off — or a retriggering note-on — closes the slot into
//! a finished `Note`, discarded when its duration would be zero. The
//! clock saturates at the largest 64-bit value rather than wrap.

use vstd::prelude::*;

use crate::midi::EventKind;
use crate::midi::MidiEvent;
use crate::midi::sorted_by_tick;

verus! {

/// One finished note: when it starts and how long it sounds, in
/// microseconds, and what and where it plays.
#[derive(Clone, Copy, Debug, PartialEq, Eq, Structural)]
pub struct Note {
    pub start_us: u64,
    pub duration_us: u64,
    pub midi_key: u8,
    pub velocity: u8,
    pub channel: u8,
}

/// The reconstruction state: the clock, the tick it stands at, the
/// tempo in force, the 2048 voice slots (channel * 128 + pitch), and
/// the notes finished so far.
pub ghost struct ConvState {
    pub time_us: u64,
    pub tick: u32,
    pub tempo: u32,
    pub slots: Seq<Option<(u64, u8)>>,
    pub notes: Seq<Note>,
}

/// The slot of a (channel, pitch) pair in the voice table.
pub open spec fn slot_index(channel: u8, note: u8) -> int {
    channel * 128 + note
}

/// The clock is at zero, at tick zero, at the default tempo of 500000
/// microseconds per quarter note, with every voice silent.
pub open spec fn conv_init() -> ConvState {
    ConvState {
        time_us: 0,
        tick: 0,
        tempo: 500000,
        slots: Seq::new(2048, |i: int| None),
        notes: Seq::empty(),
    }
}

/// The clock after `delta_ticks` ticks at `tempo`: each tick lasts
/// `tempo / division` microseconds; the product is taken exactly and
/// then divided, and the clock saturates at the 64-bit maximum.
pub open spec fn advance_time(t: u64, delta_ticks: u32, tempo: u32, division: u16) -> u64
    recommends
        division >= 1,
{
    let d = (delta_ticks * tempo) / (division as int);
    if t + d > u64::MAX {
        u64::MAX
    } else {
        (t + d) as u64
    }
}

/// One event applied to the state: first the clock advances to the
/// event's tick, then the event takes effect.
pub open spec fn conv_step(st: ConvState, e: MidiEvent, division: u16) -> ConvState
    recommends
        division >= 1,
        e.channel < 16,
        e.note < 128,
        st.tick <= e.abs_tick,
{
    let st1 = if e.abs_tick > st.tick {
        ConvState {
            time_us: advance_time(st.time_us, (e.abs_tick - st.tick) as u32, st.tempo, division),
            tick: e.abs_tick,
            ..st
        }
    } else {
        st
    };
    match e.kind {
        EventKind::SetTempo => ConvState { tempo: e.tempo_micros, ..st1 },
        EventKind::NoteOn => {
            let idx = slot_index(e.channel, e.note);
            let st2 = close_slot(st1, idx, e.note, e.channel);
            ConvState { slots: st2.slots.update(idx, Some((st1.time_us, e.velocity))), ..st2 }
        },
        EventKind::NoteOff => {
            let idx = slot_index(e.channel, e.note);
            if st1.slots[idx] is Some {
                let st2 = close_slot(st1, idx, e.note, e.channel);
                ConvState { slots: st2.slots.update(idx, None), ..st2 }
            } else {
                st1
            }
        },
    }
}

/// Closes the pending note in `idx`, if any: a note with the stored
/// start and velocity is emitted when its duration is strictly
/// positive, and discarded otherwise.
pub open spec fn close_slot(st: ConvState, idx: int, note: u8, channel: u8) -> ConvState {
    match st.slots[idx] {
        Some((start, vel)) => {
            if st.time_us > start {
                ConvState {
                    notes: st.notes.push(
                        Note {
                            start_us: start,
                            duration_us: (st.time_us - start) as u64,
                            midi_key: note,
                            velocity: vel,
                            channel: channel,
                        },
                    ),
                    ..st
                }
            } else {
                st
            }
        },
        None => st,
    }
}

/// The state after the whole event sequence, in order.
pub open spec fn conv_run(events: Seq<MidiEvent>, division: u16) -> ConvState
    decreases events.len(),
{
    if events.len() == 0 {
        conv_init()
    } else {
        conv_step(conv_run(events.drop_last(), division), events.last(), division)
    }
}

/// The total rendered duration: the clock at the end of the events,
/// plus a one-second tail for releases to ring out.
pub open spec fn spec_total_duration(events: Seq<MidiEvent>, division: u16) -> u64 {
    let t = conv_run(events, division).time_us;
    if t + 1000000 > u64::MAX {
        u64::MAX
    } else {
        (t + 1000000) as u64
    }
}

/// Every event's channel is below 16 and pitch below 128, so that the
/// voice table can hold it.
pub open spec fn events_in_range(events: Seq<MidiEvent>) -> bool {
    forall|i: int|
        0 <= i < events.len() ==> events[i].channel < 16 && events[i].note < 128
}

/// Checks that every event fits the voice table.
pub fn check_events_in_range(events: &Vec<MidiEvent>) -> (r: bool)
    ensures
        r == events_in_range(events@),
{
    let mut i: usize = 0;
    while i < events.len()
        invariant
            i <= events@.len(),
            forall|j: int| 0 <= j < i ==> events@[j].channel < 16 && events@[j].note < 128,
        decreases events@.len() - i,
    {
        if events[i].channel >= 16 || events[i].note >= 128 {
            return false;
        }
        i = i + 1;
    }
    true
}

/// Walks the sorted events and returns the finished notes and the
/// total duration in microseconds. The result is exactly the run of
/// the spec-level reconstruction: `conv_run(events@, division)`.
#[verifier::loop_isolation(false)]
pub fn convert_events_to_notes(events: &Vec<MidiEvent>, division: u16) -> (r: (Vec<Note>, u64))
    requires
        division >= 1,
        sorted_by_tick(events@),
        events_in_range(events@),
    ensures
        r.0@ == conv_run(events@, division).notes,
        r.1 == spec_total_duration(events@, division),
{
    let mut slots: Vec<Option<(u64, u8)>> = Vec::new();
    let mut k: usize = 0;
    while k < 2048
        invariant
            k <= 2048,
            slots@.len() == k,
            forall|j: int| 0 <= j < k ==> slots@[j] is None,
        decreases 2048 - k,
    {
        slots.push(None);
        k = k + 1;
    }
    proof {
        assert(slots@ =~= conv_init().slots);
    }
    let mut notes: Vec<Note> = Vec::new();
    let mut time: u64 = 0;
    let mut tick: u32 = 0;
    let mut tempo: u32 = 500000;
    let mut i: usize = 0;
    while i < events.len()
        invariant
            i <= events@.len(),
            slots@.len() == 2048,
            conv_run(events@.take(i as int), division) == (ConvState {
                time_us: time,
                tick: tick,
                tempo: tempo,
                slots: slots@,
                notes: notes@,
            }),
        decreases events@.len() - i,
    {
        let ghost st = conv_run(events@.take(i as int), division);
        let e = events[i];
        proof {
            assert(events@.take(i + 1 as int).drop_last() =~= events@.take(i as int));
            assert(events@.take(i + 1 as int).last() == e);
        }
        if e.abs_tick > tick {
            let delta = e.abs_tick - tick;
            assert((delta as u64) * (tempo as u64) <= 0xFFFF_FFFF * 0xFFFF_FFFF)
                by (nonlinear_arith)
                requires
                    delta <= 0xFFFF_FFFFu64 && tempo <= 0xFFFF_FFFFu64,
            ;
            let delta_us = ((delta as u64) * (tempo as u64)) / (division as u64);
            time = time.saturating_add(delta_us);
            tick = e.abs_tick;
        }
        match e.kind {
            EventKind::SetTempo => {
                tempo = e.tempo_micros;
            },
            EventKind::NoteOn => {
                let idx: usize = (e.channel as usize) * 128 + (e.note as usize);
                match slots[idx] {
                    Some((start, vel)) => {
                        if time > start {
                            notes.push(
                                Note {
                                    start_us: start,
                                    duration_us: time - start,
                                    midi_key: e.note,
                                    velocity: vel,
                                    channel: e.channel,
                                },
                            );
                        }
                    },
                    None => {},
                }
                slots.set(idx, Some((time, e.velocity)));
            },
            EventKind::NoteOff => {
                let idx: usize = (e.channel as usize) * 128 + (e.note as usize);
                match slots[idx] {
                    Some((start, vel)) => {
                        if time > start {
                            notes.push(
                                Note {
                                    start_us: start,
                                    duration_us: time - start,
                                    midi_key: e.note,
                                    velocity: vel,
                                    channel: e.channel,
                                },
                            );
                        }
                        slots.set(idx, None);
                    },
                    None => {},
                }
            },
        }
        proof {
            assert(conv_run(events@.take(i + 1 as int), division) == conv_step(st, e, division));
            assert(conv_step(st, e, division) == (ConvState {
                time_us: time,
                tick: tick,
                tempo: tempo,
                slots: slots@,
                notes: notes@,
            }));
        }
        i = i + 1;
    }
    proof {
        assert(events@.take(events@.len() as int) =~= events@);
    }
    let total = time.saturating_add(1000000);
    (notes, total)
}

/// The clock never runs backwards: every event leaves the elapsed
/// time at least where it stood.
pub proof fn lemma_clock_monotone(st: ConvState, e: MidiEvent, division: u16)
    requires
        division >= 1,
    ensures
        conv_step(st, e, division).time_us >= st.time_us,
{
    if e.abs_tick > st.tick {
        let delta = (e.abs_tick - st.tick) as u32;
        vstd::arithmetic::div_mod::lemma_div_pos_is_pos(delta * st.tempo, division as int);
    }
}

/// Every note the reconstruction emits has a strictly positive
/// duration: zero-length candidates are discarded, never emitted.
pub proof fn lemma_notes_have_positive_duration(events: Seq<MidiEvent>, division: u16)
    ensures
        forall|i: int|
            0 <= i < conv_run(events, division).notes.len() ==> #[trigger] conv_run(
                events,
                division,
            ).notes[i].duration_us > 0,
    decreases events.len(),
{
    if events.len() != 0 {
        lemma_notes_have_positive_duration(events.drop_last(), division);
        let st = conv_run(events.drop_last(), division);
        let post = conv_step(st, events.last(), division);
        assert forall|i: int| 0 <= i < post.notes.len() implies #[trigger] post.notes[i].duration_us
            > 0 by {
            if i < st.notes.len() {
                assert(st.notes[i].duration_us > 0);
            }
        }
    }
}

/// Tempo changes are never retroactive: the state reached after the
/// first `i` events — the elapsed clock included — is the same
/// whatever events, tempo changes included, follow them.
pub proof fn lemma_tempo_not_retroactive(
    events: Seq<MidiEvent>,
    tail: Seq<MidiEvent>,
    division: u16,
    i: int,
)
    requires
        0 <= i <= events.len(),
    ensures
        conv_run((events + tail).take(i), division) == conv_run(events.take(i), division),
{
    assert((events + tail).take(i) =~= events.take(i));
}

/// A note-off on a silent voice does nothing: no note is emitted, no
/// slot changes, and — the reconstruction being a total function — no
/// error of any kind arises.
pub proof fn lemma_unmatched_noteoff(st: ConvState, e: MidiEvent, division: u16)
    requires
        e.kind is NoteOff,
        st.slots[slot_index(e.channel, e.note)] is None,
    ensures
        conv_step(st, e, division).notes == st.notes,
        conv_step(st, e, division).slots == st.slots,
{
}

/// A note-on immediately followed by its note-off at the identical
/// tick yields no note: the clock does not move between the two, so
/// the candidate's duration is zero and it is discarded, and the voice
/// slot is silent again afterwards.
pub proof fn lemma_zero_duration_guard(
    st: ConvState,
    channel: u8,
    note: u8,
    velocity: u8,
    t: u32,
    division: u16,
)
    requires
        channel < 16,
        note < 128,
        st.slots.len() == 2048,
        st.slots[slot_index(channel, note)] is None,
        st.tick <= t,
    ensures
        ({
            let on = MidiEvent {
                abs_tick: t,
                kind: EventKind::NoteOn,
                channel: channel,
                note: note,
                velocity: velocity,
                tempo_micros: 0,
            };
            let off = MidiEvent {
                abs_tick: t,
                kind: EventKind::NoteOff,
                channel: channel,
                note: note,
                velocity: 0,
                tempo_micros: 0,
            };
            let st2 = conv_step(conv_step(st, on, division), off, division);
            st2.notes == st.notes && st2.slots == st.slots
        }),
{
    let on = MidiEvent {
        abs_tick: t,
        kind: EventKind::NoteOn,
        channel: channel,
        note: note,
        velocity: velocity,
        tempo_micros: 0,
    };
    let off = MidiEvent {
        abs_tick: t,
        kind: EventKind::NoteOff,
        channel: channel,
        note: note,
        velocity: 0,
        tempo_micros: 0,
    };
    let idx = slot_index(channel, note);
    let st1 = conv_step(st, on, division);
    assert(st1.tick == t);
    assert(st1.slots == st.slots.update(idx, Some((st1.time_us, velocity))));
    let st2 = conv_step(st1, off, division);
    assert(st2.notes == st.notes);
    assert(st2.slots =~= st.slots);
}

/// Retriggering a sounding voice closes it and opens a new one: a
/// note-on at time `T0`, a second note-on at a later time `T1`, and a
/// note-off at a still later time `T2`, all on one (channel, pitch)
/// and from a fresh state, yield exactly two notes — `(T0, T1 - T0)`
/// with the first velocity, then `(T1, T2 - T1)` with the second.
pub proof fn lemma_retrigger(
    channel: u8,
    note: u8,
    vel1: u8,
    vel2: u8,
    t0: u32,
    t1: u32,
    t2: u32,
    division: u16,
)
    requires
        channel < 16,
        note < 128,
        division >= 1,
        t0 < t1 < t2,
        ({
            let time0 = advance_time(0, t0, 500000, division);
            let time1 = advance_time(time0, (t1 - t0) as u32, 500000, division);
            let time2 = advance_time(time1, (t2 - t1) as u32, 500000, division);
            time0 < time1 < time2
        }),
    ensures
        ({
            let on1 = MidiEvent {
                abs_tick: t0,
                kind: EventKind::NoteOn,
                channel: channel,
                note: note,
                velocity: vel1,
                tempo_micros: 0,
            };
            let on2 = MidiEvent {
                abs_tick: t1,
                kind: EventKind::NoteOn,
                channel: channel,
                note: note,
                velocity: vel2,
                tempo_micros: 0,
            };
            let off = MidiEvent {
                abs_tick: t2,
                kind: EventKind::NoteOff,
                channel: channel,
                note: note,
                velocity: 0,
                tempo_micros: 0,
            };
            let time0 = advance_time(0, t0, 500000, division);
            let time1 = advance_time(time0, (t1 - t0) as u32, 500000, division);
            let time2 = advance_time(time1, (t2 - t1) as u32, 500000, division);
            conv_run(seq![on1, on2, off], division).notes == seq![
                Note {
                    start_us: time0,
                    duration_us: (time1 - time0) as u64,
                    midi_key: note,
                    velocity: vel1,
                    channel: channel,
                },
                Note {
                    start_us: time1,
                    duration_us: (time2 - time1) as u64,
                    midi_key: note,
                    velocity: vel2,
                    channel: channel,
                },
            ]
        }),
{
    let on1 = MidiEvent {
        abs_tick: t0,
        kind: EventKind::NoteOn,
        channel: channel,
        note: note,
        velocity: vel1,
        tempo_micros: 0,
    };
    let on2 = MidiEvent {
        abs_tick: t1,
        kind: EventKind::NoteOn,
        channel: channel,
        note: note,
        velocity: vel2,
        tempo_micros: 0,
    };
    let off = MidiEvent {
        abs_tick: t2,
        kind: EventKind::NoteOff,
        channel: channel,
        note: note,
        velocity: 0,
        tempo_micros: 0,
    };
    let time0 = advance_time(0, t0, 500000, division);
    let time1 = advance_time(time0, (t1 - t0) as u32, 500000, division);
    let time2 = advance_time(time1, (t2 - t1) as u32, 500000, division);
    let s = seq![on1, on2, off];
    let idx = slot_index(channel, note);
    assert(s.drop_last() =~= seq![on1, on2]);
    assert(s.last() == off);
    assert(seq![on1, on2].drop_last() =~= seq![on1]);
    assert(seq![on1, on2].last() == on2);
    assert(seq![on1].drop_last() =~= Seq::<MidiEvent>::empty());
    assert(seq![on1].last() == on1);
    let st0 = conv_init();
    let st1 = conv_step(st0, on1, division);
    assert(st1.time_us == time0 && st1.tick == t0);
    assert(st1.notes == Seq::<Note>::empty());
    assert(st1.slots[idx] == Some((time0, vel1)));
    let st2 = conv_step(st1, on2, division);
    assert(st2.time_us == time1 && st2.tick == t1);
    assert(st2.notes =~= seq![
        Note {
            start_us: time0,
            duration_us: (time1 - time0) as u64,
            midi_key: note,
            velocity: vel1,
            channel: channel,
        },
    ]);
    assert(st2.slots[idx] == Some((time1, vel2)));
    let st3 = conv_step(st2, off, division);
    assert(st3.time_us == time2);
    assert(conv_run(Seq::<MidiEvent>::empty(), division) == st0);
    assert(conv_run(seq![on1], division) == st1);
    assert(conv_run(seq![on1, on2], division) == st2);
    assert(conv_run(s, division) == st3);
    assert(st3.notes =~= seq![
        Note {
            start_us: time0,
            duration_us: (time1 - time0) as u64,
            midi_key: note,
            velocity: vel1,
            channel: channel,
        },
        Note {
            start_us: time1,
            duration_us: (time2 - time1) as u64,
            midi_key: note,
            velocity: vel2,
            channel: channel,
        },
    ]);
}

} // verus!
