use midisynth::midi::parse_midi;
use midisynth::timeline::convert_events_to_notes;
use midisynth::wav::clamp_sample;
use midisynth::wav::duration_to_samples;
use midisynth::wav::encode_samples;
use midisynth::wav::mix_bounds;
use midisynth::wav::render_wav;
use midisynth::wav::wav_header;

fn le32_at(bytes: &[u8], pos: usize) -> u32 {
    u32::from_le_bytes([bytes[pos], bytes[pos + 1], bytes[pos + 2], bytes[pos + 3]])
}

fn le16_at(bytes: &[u8], pos: usize) -> u16 {
    u16::from_le_bytes([bytes[pos], bytes[pos + 1]])
}

#[test]
fn header_layout_is_the_standard_one() {
    let h = wav_header(1000);
    assert_eq!(h.len(), 44);
    assert_eq!(&h[0..4], b"RIFF");
    assert_eq!(le32_at(&h, 4), 36 + 2000);
    assert_eq!(&h[8..12], b"WAVE");
    assert_eq!(&h[12..16], b"fmt ");
    assert_eq!(le32_at(&h, 16), 16);
    assert_eq!(le16_at(&h, 20), 1);
    assert_eq!(le16_at(&h, 22), 1);
    assert_eq!(le32_at(&h, 24), 44100);
    assert_eq!(le32_at(&h, 28), 88200);
    assert_eq!(le16_at(&h, 32), 2);
    assert_eq!(le16_at(&h, 34), 16);
    assert_eq!(&h[36..40], b"data");
    assert_eq!(le32_at(&h, 40), 2000);
}

#[test]
fn clamping_and_little_endian_encoding() {
    assert_eq!(clamp_sample(0), 0);
    assert_eq!(clamp_sample(32767), 32767);
    assert_eq!(clamp_sample(32768), 32767);
    assert_eq!(clamp_sample(-32768), -32768);
    assert_eq!(clamp_sample(-32769), -32768);
    assert_eq!(clamp_sample(1000000), 32767);
    assert_eq!(clamp_sample(-1000000), -32768);
    let data = encode_samples(&vec![0, 1, -1, 0x1234, -0x1234, 40000, -40000]);
    assert_eq!(
        data,
        vec![
            0x00, 0x00, // 0
            0x01, 0x00, // 1
            0xFF, 0xFF, // -1
            0x34, 0x12, // 0x1234
            0xCC, 0xED, // -0x1234
            0xFF, 0x7F, // clamped to 32767
            0x00, 0x80, // clamped to -32768
        ]
    );
}

#[test]
fn header_integrity_of_a_rendered_file() {
    let samples: Vec<i32> = vec![0; 66150];
    let f = render_wav(&samples);
    assert_eq!(f.len(), 44 + 2 * 66150);
    let data_bytes = le32_at(&f, 40);
    assert_eq!(data_bytes, 2 * 66150);
    assert_eq!(le32_at(&f, 4), 36 + data_bytes);
    assert_eq!(f.len() as u32, 8 + le32_at(&f, 4));
}

#[test]
fn duration_to_samples_truncates() {
    assert_eq!(duration_to_samples(0), 0);
    assert_eq!(duration_to_samples(1000000), 44100);
    assert_eq!(duration_to_samples(1500000), 66150);
    assert_eq!(duration_to_samples(500000), 22050);
    // one microsecond is less than one sample long
    assert_eq!(duration_to_samples(1), 0);
    assert_eq!(duration_to_samples(23), 1);
}

#[test]
fn mix_bounds_cut_at_the_buffer_end() {
    // a quarter second starting at one second, 0.1 s release appended
    let (start, end) = mix_bounds(1000000, 250000, 66150);
    assert_eq!(start, 44100);
    assert_eq!(end, 44100 + duration_to_samples(350000));
    // a note past the end of the buffer contributes nothing
    let (start, end) = mix_bounds(2000000, 250000, 66150);
    assert_eq!(start, 88200);
    assert_eq!(end, 66150);
    // a note cut off by the end
    let (start, end) = mix_bounds(1400000, 250000, 66150);
    assert_eq!(start, 61740);
    assert_eq!(end, 66150);
}

#[test]
fn end_to_end_one_note_render() {
    // one track, division 96: set tempo 500000, a note from tick 0 to 96
    let mut f = Vec::new();
    f.extend_from_slice(b"MThd");
    f.extend_from_slice(&6u32.to_be_bytes());
    f.extend_from_slice(&0u16.to_be_bytes());
    f.extend_from_slice(&1u16.to_be_bytes());
    f.extend_from_slice(&96u16.to_be_bytes());
    let body: Vec<u8> = vec![
        0x00, 0xFF, 0x51, 0x03, 0x07, 0xA1, 0x20, // set tempo 500000
        0x00, 0x90, 60, 100, // note on C4
        0x60, 0x80, 60, 0,   // note off at tick 96
        0x00, 0xFF, 0x2F, 0x00, // end of track
    ];
    f.extend_from_slice(b"MTrk");
    f.extend_from_slice(&(body.len() as u32).to_be_bytes());
    f.extend_from_slice(&body);

    let (events, division) = parse_midi(&f).unwrap();
    assert_eq!(division, 96);
    let (notes, total) = convert_events_to_notes(&events, division);
    assert_eq!(notes.len(), 1);
    assert_eq!(notes[0].start_us, 0);
    assert_eq!(notes[0].duration_us, 500000);
    assert_eq!(notes[0].midi_key, 60);
    assert_eq!(total, 1500000);

    let total_samples = duration_to_samples(total);
    assert_eq!(total_samples, 66150);
    let samples: Vec<i32> = vec![0; total_samples];
    let out = render_wav(&samples);
    assert_eq!(le32_at(&out, 40) as usize, total_samples * 2);
    assert_eq!(out.len(), 44 + total_samples * 2);
}
