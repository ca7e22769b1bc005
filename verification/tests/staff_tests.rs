use midisynth::playback::fill_playback;
use midisynth::playback::get_channel_color;
use midisynth::playback::Rgb;
use midisynth::ringbuf::StackRingBuffer;
use midisynth::staff::determine_accidental;
use midisynth::staff::get_staff_step;
use midisynth::staff::is_black_key;
use midisynth::staff::is_flat_root;
use midisynth::staff::Accidental;
use midisynth::staff::KeyInfo;

#[test]
fn black_keys_of_an_octave() {
    let blacks: Vec<i32> = (60..72).filter(|&m| is_black_key(m)).collect();
    assert_eq!(blacks, vec![61, 63, 66, 68, 70]);
}

#[test]
fn flat_roots_are_the_flat_side_of_the_circle() {
    let flats: Vec<i32> = (0..12).filter(|&r| is_flat_root(r)).collect();
    assert_eq!(flats, vec![1, 3, 5, 6, 8, 10]);
}

#[test]
fn accidentals_in_c_major() {
    // every white key is in the scale, every black key gets a sharp
    assert_eq!(determine_accidental(60, 0), Accidental::NoSign);
    assert_eq!(determine_accidental(62, 0), Accidental::NoSign);
    assert_eq!(determine_accidental(61, 0), Accidental::Sharp);
    assert_eq!(determine_accidental(66, 0), Accidental::Sharp);
}

#[test]
fn accidentals_in_f_major() {
    // B flat is in the scale; B natural needs a natural sign;
    // C sharp is chromatic and written as a flat
    assert_eq!(determine_accidental(70, 5), Accidental::NoSign);
    assert_eq!(determine_accidental(71, 5), Accidental::Natural);
    assert_eq!(determine_accidental(61, 5), Accidental::Flat);
    assert_eq!(determine_accidental(65, 5), Accidental::NoSign);
}

#[test]
fn accidentals_in_g_major() {
    // F natural needs a natural sign, F sharp is in the scale
    assert_eq!(determine_accidental(65, 7), Accidental::Natural);
    assert_eq!(determine_accidental(66, 7), Accidental::NoSign);
    assert_eq!(determine_accidental(68, 7), Accidental::Sharp);
}

#[test]
fn key_names_map_to_roots_and_signatures() {
    assert_eq!(KeyInfo::from_name("C"), KeyInfo(0, 0));
    assert_eq!(KeyInfo::from_name("Am"), KeyInfo(0, 0));
    assert_eq!(KeyInfo::from_name("G"), KeyInfo(7, 1));
    assert_eq!(KeyInfo::from_name("F"), KeyInfo(5, 1));
    assert_eq!(KeyInfo::from_name("Gm"), KeyInfo(10, 2));
    assert_eq!(KeyInfo::from_name("H"), KeyInfo(11, 5));
    assert_eq!(KeyInfo::from_name("fis"), KeyInfo(9, 3));
    assert_eq!(KeyInfo::from_name("Ebm"), KeyInfo(6, 6));
    assert_eq!(KeyInfo::from_name("Db"), KeyInfo(1, 5));
    assert_eq!(KeyInfo::from_name("h"), KeyInfo(2, 2));
}

#[test]
fn staff_steps_count_seven_per_octave() {
    let c4 = get_staff_step(60, false);
    assert_eq!(get_staff_step(62, false) - c4, 1);
    assert_eq!(get_staff_step(64, false) - c4, 2);
    assert_eq!(get_staff_step(71, false) - c4, 6);
    assert_eq!(get_staff_step(72, false) - c4, 7);
    assert_eq!(get_staff_step(48, false) - c4, -7);
    // a sharp sits on the step of the white key below it, a flat on
    // the one above it
    assert_eq!(get_staff_step(61, false) - c4, 0);
    assert_eq!(get_staff_step(61, true) - c4, 1);
}

#[test]
fn ring_buffer_fifo_and_overflow() {
    let mut rb: StackRingBuffer<u32, 3> = StackRingBuffer::new();
    assert_eq!(rb.pop(), None);
    assert_eq!(rb.push_overflow(1), None);
    assert_eq!(rb.push_overflow(2), None);
    assert_eq!(rb.push_overflow(3), None);
    assert_eq!(rb.len(), 3);
    // full: the oldest element is evicted
    assert_eq!(rb.push_overflow(4), Some(1));
    assert_eq!(rb.len(), 3);
    assert_eq!(rb.pop(), Some(2));
    assert_eq!(rb.pop(), Some(3));
    assert_eq!(rb.push_overflow(5), None);
    assert_eq!(rb.pop(), Some(4));
    assert_eq!(rb.pop(), Some(5));
    assert_eq!(rb.pop(), None);
}

#[test]
fn ring_buffer_of_capacity_one() {
    let mut rb: StackRingBuffer<&str, 1> = StackRingBuffer::new();
    assert_eq!(rb.push_overflow("a"), None);
    assert_eq!(rb.push_overflow("b"), Some("a"));
    assert_eq!(rb.pop(), Some("b"));
    assert_eq!(rb.pop(), None);
}

#[test]
fn channel_colors() {
    assert_eq!(get_channel_color(9), Rgb { r: 150, g: 150, b: 150 });
    assert_eq!(get_channel_color(0), Rgb { r: 0, g: 220, b: 220 });
    assert_eq!(get_channel_color(8), Rgb { r: 255, g: 128, b: 0 });
    // the palette repeats beyond nine
    assert_eq!(get_channel_color(10), get_channel_color(1));
    assert_eq!(get_channel_color(12), get_channel_color(3));
}

#[test]
fn playback_fill_copies_then_pads_with_silence() {
    let samples: Vec<i16> = vec![10, 20, 30, 40, 50];
    let mut out: Vec<i16> = vec![0; 3];
    let c = fill_playback(&samples, 0, &mut out);
    assert_eq!(out, vec![10, 20, 30]);
    assert_eq!(c, 3);
    let c = fill_playback(&samples, c, &mut out);
    assert_eq!(out, vec![40, 50, 0]);
    assert_eq!(c, 5);
    let c = fill_playback(&samples, c, &mut out);
    assert_eq!(out, vec![0, 0, 0]);
    assert_eq!(c, 5);
}
