use midisynth::midi::parse_midi;
use midisynth::midi::read_u16_be;
use midisynth::midi::read_u32_be;
use midisynth::midi::sort_events;
use midisynth::midi::EventKind;
use midisynth::midi::MidiError;
use midisynth::midi::MidiEvent;

fn header(num_tracks: u16, division: u16) -> Vec<u8> {
    let mut f = Vec::new();
    f.extend_from_slice(b"MThd");
    f.extend_from_slice(&6u32.to_be_bytes());
    f.extend_from_slice(&0u16.to_be_bytes());
    f.extend_from_slice(&num_tracks.to_be_bytes());
    f.extend_from_slice(&division.to_be_bytes());
    f
}

fn with_track(mut file: Vec<u8>, body: &[u8]) -> Vec<u8> {
    file.extend_from_slice(b"MTrk");
    file.extend_from_slice(&(body.len() as u32).to_be_bytes());
    file.extend_from_slice(body);
    file
}

fn end_of_track(body: &mut Vec<u8>) {
    body.extend_from_slice(&[0x00, 0xFF, 0x2F, 0x00]);
}

#[test]
fn rejects_missing_magic() {
    let r = parse_midi(b"RIFFxxxxxxxxxxxx");
    assert_eq!(r.unwrap_err(), MidiError::FormatError);
}

#[test]
fn rejects_smpte_division() {
    let f = header(0, 0x8000 | 25);
    assert_eq!(parse_midi(&f).unwrap_err(), MidiError::UnsupportedFeature);
}

#[test]
fn rejects_truncated_file() {
    assert_eq!(parse_midi(b"MTh").unwrap_err(), MidiError::IOError);
    assert_eq!(parse_midi(b"MThd\x00\x00\x00\x06").unwrap_err(), MidiError::IOError);
    // one declared track but no bytes after the header
    let f = header(1, 96);
    assert_eq!(parse_midi(&f).unwrap_err(), MidiError::IOError);
    // a track whose note event is cut off
    let body = vec![0x00, 0x90, 0x3C];
    let f = with_track(header(1, 96), &body);
    assert_eq!(parse_midi(&f).unwrap_err(), MidiError::IOError);
}

#[test]
fn empty_file_with_no_tracks_decodes() {
    let f = header(0, 96);
    let (events, division) = parse_midi(&f).unwrap();
    assert!(events.is_empty());
    assert_eq!(division, 96);
}

#[test]
fn running_status_reuses_the_last_status_byte() {
    let mut body = vec![];
    body.extend_from_slice(&[0x00, 0x90, 60, 100]);
    body.extend_from_slice(&[0x00, 61, 100]);
    body.extend_from_slice(&[0x00, 62, 100]);
    end_of_track(&mut body);
    let f = with_track(header(1, 96), &body);
    let (events, _) = parse_midi(&f).unwrap();
    assert_eq!(events.len(), 3);
    for (i, pitch) in [60u8, 61, 62].iter().enumerate() {
        assert_eq!(events[i].kind, EventKind::NoteOn);
        assert_eq!(events[i].channel, 0);
        assert_eq!(events[i].note, *pitch);
        assert_eq!(events[i].velocity, 100);
        assert_eq!(events[i].abs_tick, 0);
    }
}

#[test]
fn note_on_with_zero_velocity_is_a_note_off() {
    let mut body = vec![];
    body.extend_from_slice(&[0x00, 0x93, 72, 100]);
    body.extend_from_slice(&[0x60, 0x93, 72, 0]);
    end_of_track(&mut body);
    let f = with_track(header(1, 96), &body);
    let (events, _) = parse_midi(&f).unwrap();
    assert_eq!(events.len(), 2);
    assert_eq!(events[0].kind, EventKind::NoteOn);
    assert_eq!(events[0].channel, 3);
    assert_eq!(events[1].kind, EventKind::NoteOff);
    assert_eq!(events[1].abs_tick, 0x60);
}

#[test]
fn set_tempo_meta_event_is_decoded() {
    let mut body = vec![];
    body.extend_from_slice(&[0x00, 0xFF, 0x51, 0x03, 0x07, 0xA1, 0x20]);
    body.extend_from_slice(&[0x10, 0x80, 40, 64]);
    end_of_track(&mut body);
    let f = with_track(header(1, 48), &body);
    let (events, division) = parse_midi(&f).unwrap();
    assert_eq!(division, 48);
    assert_eq!(events.len(), 2);
    assert_eq!(events[0].kind, EventKind::SetTempo);
    assert_eq!(events[0].tempo_micros, 500000);
    assert_eq!(events[1].kind, EventKind::NoteOff);
    assert_eq!(events[1].note, 40);
    assert_eq!(events[1].abs_tick, 0x10);
}

#[test]
fn other_meta_sysex_and_channel_messages_are_skipped() {
    let mut body = vec![];
    // text meta event, 4 bytes
    body.extend_from_slice(&[0x00, 0xFF, 0x01, 0x04, b'd', b'e', b'm', b'o']);
    // sysex, 3 bytes
    body.extend_from_slice(&[0x00, 0xF0, 0x03, 1, 2, 3]);
    // program change (one data byte), control change (two data bytes)
    body.extend_from_slice(&[0x00, 0xC0, 0x05]);
    body.extend_from_slice(&[0x00, 0xB0, 0x07, 0x40]);
    // and one real note
    body.extend_from_slice(&[0x00, 0x90, 60, 90]);
    end_of_track(&mut body);
    let f = with_track(header(1, 96), &body);
    let (events, _) = parse_midi(&f).unwrap();
    assert_eq!(events.len(), 1);
    assert_eq!(events[0].kind, EventKind::NoteOn);
}

#[test]
fn unknown_chunks_before_a_track_are_skipped() {
    let mut f = header(1, 96);
    f.extend_from_slice(b"XFIh");
    f.extend_from_slice(&3u32.to_be_bytes());
    f.extend_from_slice(&[9, 9, 9]);
    let mut body = vec![0x00, 0x90, 60, 100];
    end_of_track(&mut body);
    let f = with_track(f, &body);
    let (events, _) = parse_midi(&f).unwrap();
    assert_eq!(events.len(), 1);
}

#[test]
fn events_of_two_tracks_are_merged_and_sorted() {
    let mut a = vec![];
    a.extend_from_slice(&[0x60, 0x90, 60, 100]); // tick 96
    end_of_track(&mut a);
    let mut b = vec![];
    b.extend_from_slice(&[0x00, 0x91, 72, 80]); // tick 0
    b.extend_from_slice(&[0x81, 0x40, 0x81, 72, 0]); // tick 192
    end_of_track(&mut b);
    let f = with_track(with_track(header(2, 96), &a), &b);
    let (events, _) = parse_midi(&f).unwrap();
    assert_eq!(events.len(), 3);
    assert_eq!(events[0].abs_tick, 0);
    assert_eq!(events[0].channel, 1);
    assert_eq!(events[1].abs_tick, 96);
    assert_eq!(events[1].channel, 0);
    assert_eq!(events[2].abs_tick, 192);
}

#[test]
fn sort_is_stable_for_equal_ticks() {
    let mk = |tick: u32, note: u8| MidiEvent {
        abs_tick: tick,
        kind: EventKind::NoteOn,
        channel: 0,
        note,
        velocity: 64,
        tempo_micros: 0,
    };
    let events = vec![mk(5, 1), mk(0, 2), mk(5, 3), mk(0, 4), mk(5, 5)];
    let sorted = sort_events(events);
    let order: Vec<(u32, u8)> = sorted.iter().map(|e| (e.abs_tick, e.note)).collect();
    assert_eq!(order, vec![(0, 2), (0, 4), (5, 1), (5, 3), (5, 5)]);
}

#[test]
fn big_endian_readers() {
    let bytes = vec![0x12u8, 0x34, 0x56, 0x78, 0x9A];
    assert_eq!(read_u16_be(&bytes, 0), Some((0x1234, 2)));
    assert_eq!(read_u16_be(&bytes, 3), Some((0x789A, 5)));
    assert_eq!(read_u16_be(&bytes, 4), None);
    assert_eq!(read_u32_be(&bytes, 1), Some((0x3456789A, 5)));
    assert_eq!(read_u32_be(&bytes, 2), None);
}

#[test]
fn end_of_track_stops_the_track_early() {
    let mut body = vec![];
    body.extend_from_slice(&[0x00, 0x90, 60, 100]);
    end_of_track(&mut body);
    // bytes after the end-of-track, still within the declared length
    body.extend_from_slice(&[0x00, 0x90, 61, 100]);
    let f = with_track(header(1, 96), &body);
    let (events, _) = parse_midi(&f).unwrap();
    assert_eq!(events.len(), 1);
    assert_eq!(events[0].note, 60);
}
