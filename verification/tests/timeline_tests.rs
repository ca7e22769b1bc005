use midisynth::midi::EventKind;
use midisynth::midi::MidiEvent;
use midisynth::timeline::check_events_in_range;
use midisynth::timeline::convert_events_to_notes;
use midisynth::timeline::Note;

fn note_on(tick: u32, channel: u8, note: u8, velocity: u8) -> MidiEvent {
    MidiEvent {
        abs_tick: tick,
        kind: EventKind::NoteOn,
        channel,
        note,
        velocity,
        tempo_micros: 0,
    }
}

fn note_off(tick: u32, channel: u8, note: u8) -> MidiEvent {
    MidiEvent {
        abs_tick: tick,
        kind: EventKind::NoteOff,
        channel,
        note,
        velocity: 0,
        tempo_micros: 0,
    }
}

fn set_tempo(tick: u32, micros: u32) -> MidiEvent {
    MidiEvent {
        abs_tick: tick,
        kind: EventKind::SetTempo,
        channel: 0,
        note: 0,
        velocity: 0,
        tempo_micros: micros,
    }
}

#[test]
fn one_note_at_default_tempo() {
    // division 96, default 500000 us per beat: one beat lasts half a second
    let events = vec![note_on(0, 0, 60, 100), note_off(96, 0, 60)];
    let (notes, total) = convert_events_to_notes(&events, 96);
    assert_eq!(
        notes,
        vec![Note { start_us: 0, duration_us: 500000, midi_key: 60, velocity: 100, channel: 0 }]
    );
    assert_eq!(total, 1500000);
}

#[test]
fn retrigger_closes_the_first_note() {
    let events = vec![note_on(0, 2, 60, 100), note_on(96, 2, 60, 70), note_off(192, 2, 60)];
    let (notes, _) = convert_events_to_notes(&events, 96);
    assert_eq!(
        notes,
        vec![
            Note { start_us: 0, duration_us: 500000, midi_key: 60, velocity: 100, channel: 2 },
            Note { start_us: 500000, duration_us: 500000, midi_key: 60, velocity: 70, channel: 2 },
        ]
    );
}

#[test]
fn unmatched_note_off_is_ignored() {
    let events = vec![note_off(96, 0, 60)];
    let (notes, total) = convert_events_to_notes(&events, 96);
    assert!(notes.is_empty());
    // the clock still advanced to the event before the one-second tail
    assert_eq!(total, 1500000);
}

#[test]
fn zero_duration_note_is_discarded() {
    let events = vec![note_on(50, 0, 64, 100), note_off(50, 0, 64)];
    let (notes, _) = convert_events_to_notes(&events, 96);
    assert!(notes.is_empty());
}

#[test]
fn tempo_changes_are_not_retroactive() {
    // a slow first beat, a fast second one: each interval is priced at
    // the tempo in force when it elapses
    let events = vec![
        set_tempo(0, 1000000),
        note_on(0, 0, 60, 100),
        set_tempo(96, 250000),
        note_off(192, 0, 60),
    ];
    let (notes, total) = convert_events_to_notes(&events, 96);
    assert_eq!(notes.len(), 1);
    assert_eq!(notes[0].start_us, 0);
    assert_eq!(notes[0].duration_us, 1000000 + 250000);
    assert_eq!(total, 1250000 + 1000000);
}

#[test]
fn later_tempo_event_leaves_earlier_notes_alone() {
    let head = vec![note_on(0, 0, 60, 100), note_off(96, 0, 60)];
    let (notes_head, _) = convert_events_to_notes(&head, 96);
    let mut longer = head.clone();
    longer.push(set_tempo(96, 125000));
    longer.push(note_on(96, 0, 62, 90));
    longer.push(note_off(192, 0, 62));
    let (notes_longer, _) = convert_events_to_notes(&longer, 96);
    // the first note is unchanged by everything that came later
    assert_eq!(notes_longer[0], notes_head[0]);
    assert_eq!(notes_longer[1].duration_us, 125000);
}

#[test]
fn voices_are_independent_per_channel_and_pitch() {
    let events = vec![
        note_on(0, 0, 60, 100),
        note_on(0, 1, 60, 90),
        note_on(0, 0, 62, 80),
        note_off(96, 0, 60),
        note_off(192, 1, 60),
        note_off(288, 0, 62),
    ];
    let (notes, _) = convert_events_to_notes(&events, 96);
    assert_eq!(notes.len(), 3);
    assert_eq!((notes[0].channel, notes[0].midi_key, notes[0].duration_us), (0, 60, 500000));
    assert_eq!((notes[1].channel, notes[1].midi_key, notes[1].duration_us), (1, 60, 1000000));
    assert_eq!((notes[2].channel, notes[2].midi_key, notes[2].duration_us), (0, 62, 1500000));
}

#[test]
fn note_left_open_is_not_emitted() {
    let events = vec![note_on(0, 0, 60, 100)];
    let (notes, total) = convert_events_to_notes(&events, 96);
    assert!(notes.is_empty());
    assert_eq!(total, 1000000);
}

#[test]
fn range_check_accepts_and_rejects() {
    assert!(check_events_in_range(&vec![note_on(0, 15, 127, 1)]));
    assert!(!check_events_in_range(&vec![note_on(0, 16, 60, 1)]));
    assert!(!check_events_in_range(&vec![note_on(0, 0, 128, 1)]));
    assert!(check_events_in_range(&vec![]));
}
