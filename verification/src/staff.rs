//! Music-notation helpers for the staff renderer: key signatures,
//! accidentals, and the vertical position of a pitch on a grand staff.

use vstd::prelude::*;
use vstd::string::StringSliceAdditionalSpecFns;
use vstd::utf8::encode_utf8_decode_utf8;

verus! {

/// Whether a pitch class is a black key on the keyboard.
pub open spec fn spec_is_black_key(midi: int) -> bool {
    let k = midi % 12;
    k == 1 || k == 3 || k == 6 || k == 8 || k == 10
}

/// Tells a black key from a white one.
pub fn is_black_key(midi: i32) -> (r: bool)
    requires
        midi >= 0,
    ensures
        r == spec_is_black_key(midi as int),
{
    let k = midi % 12;
    k == 1 || k == 3 || k == 6 || k == 8 || k == 10
}

/// Whether a key signature root is written with flats rather than
/// sharps: F, B flat, E flat, A flat, D flat and G flat majors.
pub open spec fn spec_is_flat_root(root: int) -> bool {
    root == 5 || root == 10 || root == 3 || root == 8 || root == 1 || root == 6
}

/// Tells a flat-side key signature from a sharp-side one.
pub fn is_flat_root(root: i32) -> (r: bool)
    ensures
        r == spec_is_flat_root(root as int),
{
    root == 5 || root == 10 || root == 3 || root == 8 || root == 1 || root == 6
}

/// The sign a note needs in front of its head, if any.
#[derive(Clone, Copy, Debug, PartialEq, Eq, Structural)]
pub enum Accidental {
    NoSign,
    Natural,
    Sharp,
    Flat,
}

/// The accidental of a pitch in the major scale rooted at `root`: none
/// when the pitch lies in the scale; a natural sign when it is a white
/// key outside the scale; otherwise a flat or a sharp, after the side
/// of the circle of fifths the root lies on.
pub open spec fn spec_accidental(midi_key: int, root: int) -> Accidental {
    let k = midi_key % 12;
    if (root + 0) % 12 == k || (root + 2) % 12 == k || (root + 4) % 12 == k || (root + 5) % 12 == k
        || (root + 7) % 12 == k || (root + 9) % 12 == k || (root + 11) % 12 == k {
        Accidental::NoSign
    } else if k == 0 || k == 2 || k == 4 || k == 5 || k == 7 || k == 9 || k == 11 {
        Accidental::Natural
    } else if spec_is_flat_root(root) {
        Accidental::Flat
    } else {
        Accidental::Sharp
    }
}

/// Picks the accidental to draw for `midi_key` under the key signature
/// rooted at `root`.
pub fn determine_accidental(midi_key: i32, root: i32) -> (r: Accidental)
    requires
        midi_key >= 0,
        0 <= root < 12,
    ensures
        r == spec_accidental(midi_key as int, root as int),
{
    let k = midi_key % 12;
    if (root + 0) % 12 == k || (root + 2) % 12 == k || (root + 4) % 12 == k || (root + 5) % 12 == k
        || (root + 7) % 12 == k || (root + 9) % 12 == k || (root + 11) % 12 == k {
        Accidental::NoSign
    } else if k == 0 || k == 2 || k == 4 || k == 5 || k == 7 || k == 9 || k == 11 {
        Accidental::Natural
    } else if is_flat_root(root) {
        Accidental::Flat
    } else {
        Accidental::Sharp
    }
}

/// Whether two string slices hold the same characters.
#[verifier::loop_isolation(false)]
fn str_eq(a: &str, b: &str) -> (r: bool)
    ensures
        r == (a@ == b@),
{
    let ab = a.as_bytes();
    let bb = b.as_bytes();
    proof {
        encode_utf8_decode_utf8(a@);
        encode_utf8_decode_utf8(b@);
    }
    if ab.len() != bb.len() {
        return false;
    }
    let n = ab.len();
    let mut i: usize = 0;
    while i < n
        invariant
            i <= n,
            forall|j: int| 0 <= j < i ==> ab@[j] == bb@[j],
        decreases n - i,
    {
        if ab[i] != bb[i] {
            return false;
        }
        i = i + 1;
    }
    proof {
        assert(ab@ =~= bb@);
    }
    true
}

/// The pitch class (0 = C) and the number of signature accidentals of
/// a named major or minor key.
#[derive(Clone, Copy, Debug, PartialEq, Eq, Structural)]
pub struct KeyInfo(pub i32, pub u8);

/// The names `from_name` accepts: major keys, minor keys in both `m`
/// and lower-case spellings, and the German B/H names.
pub open spec fn valid_key_name(s: Seq<char>) -> bool {
    ||| s == "C"@ || s == "a"@ || s == "Am"@
    ||| s == "D"@ || s == "b"@ || s == "Bm"@ || s == "h"@ || s == "Hm"@
    ||| s == "E"@ || s == "c#"@ || s == "cis"@ || s == "C#m"@
    ||| s == "G"@ || s == "e"@ || s == "Em"@
    ||| s == "A"@ || s == "f#"@ || s == "fis"@ || s == "F#m"@
    ||| s == "B"@ || s == "H"@
    ||| s == "F"@ || s == "d"@ || s == "Dm"@
    ||| s == "Bes"@ || s == "Bb"@ || s == "g"@ || s == "Gm"@
    ||| s == "Es"@ || s == "Eb"@ || s == "c"@ || s == "Cm"@
    ||| s == "As"@ || s == "Ab"@ || s == "f"@ || s == "Fm"@
    ||| s == "Des"@ || s == "Db"@ || s == "bes"@ || s == "bb"@ || s == "Besm"@ || s == "Bbm"@
    ||| s == "Ges"@ || s == "Gb"@ || s == "es"@ || s == "eb"@ || s == "Esm"@ || s == "Ebm"@
}

/// The key a name denotes.
pub open spec fn spec_key_info(s: Seq<char>) -> KeyInfo {
    if s == "C"@ || s == "a"@ || s == "Am"@ {
        KeyInfo(0, 0)
    } else if s == "D"@ || s == "b"@ || s == "Bm"@ || s == "h"@ || s == "Hm"@ {
        KeyInfo(2, 2)
    } else if s == "E"@ || s == "c#"@ || s == "cis"@ || s == "C#m"@ {
        KeyInfo(4, 4)
    } else if s == "G"@ || s == "e"@ || s == "Em"@ {
        KeyInfo(7, 1)
    } else if s == "A"@ || s == "f#"@ || s == "fis"@ || s == "F#m"@ {
        KeyInfo(9, 3)
    } else if s == "B"@ || s == "H"@ {
        KeyInfo(11, 5)
    } else if s == "F"@ || s == "d"@ || s == "Dm"@ {
        KeyInfo(5, 1)
    } else if s == "Bes"@ || s == "Bb"@ || s == "g"@ || s == "Gm"@ {
        KeyInfo(10, 2)
    } else if s == "Es"@ || s == "Eb"@ || s == "c"@ || s == "Cm"@ {
        KeyInfo(3, 3)
    } else if s == "As"@ || s == "Ab"@ || s == "f"@ || s == "Fm"@ {
        KeyInfo(8, 4)
    } else if s == "Des"@ || s == "Db"@ || s == "bes"@ || s == "bb"@ || s == "Besm"@ || s == "Bbm"@ {
        KeyInfo(1, 5)
    } else if s == "Ges"@ || s == "Gb"@ || s == "es"@ || s == "eb"@ || s == "Esm"@ || s == "Ebm"@ {
        KeyInfo(6, 6)
    } else {
        KeyInfo(0, 0)
    }
}

impl KeyInfo {
    /// Looks a key up by its name.
    pub fn from_name(key: &str) -> (r: KeyInfo)
        requires
            valid_key_name(key@),
        ensures
            r == spec_key_info(key@),
    {
        if str_eq(key, "C") || str_eq(key, "a") || str_eq(key, "Am") {
            KeyInfo(0, 0)
        } else if str_eq(key, "D") || str_eq(key, "b") || str_eq(key, "Bm") || str_eq(key, "h")
            || str_eq(key, "Hm") {
            KeyInfo(2, 2)
        } else if str_eq(key, "E") || str_eq(key, "c#") || str_eq(key, "cis") || str_eq(
            key,
            "C#m",
        ) {
            KeyInfo(4, 4)
        } else if str_eq(key, "G") || str_eq(key, "e") || str_eq(key, "Em") {
            KeyInfo(7, 1)
        } else if str_eq(key, "A") || str_eq(key, "f#") || str_eq(key, "fis") || str_eq(
            key,
            "F#m",
        ) {
            KeyInfo(9, 3)
        } else if str_eq(key, "B") || str_eq(key, "H") {
            KeyInfo(11, 5)
        } else if str_eq(key, "F") || str_eq(key, "d") || str_eq(key, "Dm") {
            KeyInfo(5, 1)
        } else if str_eq(key, "Bes") || str_eq(key, "Bb") || str_eq(key, "g") || str_eq(
            key,
            "Gm",
        ) {
            KeyInfo(10, 2)
        } else if str_eq(key, "Es") || str_eq(key, "Eb") || str_eq(key, "c") || str_eq(key, "Cm") {
            KeyInfo(3, 3)
        } else if str_eq(key, "As") || str_eq(key, "Ab") || str_eq(key, "f") || str_eq(key, "Fm") {
            KeyInfo(8, 4)
        } else if str_eq(key, "Des") || str_eq(key, "Db") || str_eq(key, "bes") || str_eq(
            key,
            "bb",
        ) || str_eq(key, "Besm") || str_eq(key, "Bbm") {
            KeyInfo(1, 5)
        } else if str_eq(key, "Ges") || str_eq(key, "Gb") || str_eq(key, "es") || str_eq(key, "eb")
            || str_eq(key, "Esm") || str_eq(key, "Ebm") {
            KeyInfo(6, 6)
        } else {
            KeyInfo(0, 0)
        }
    }
}

/// The vertical step of a pitch on the staff, relative to C4 (middle
/// C, step 0): seven steps per octave, black keys sharing the step of
/// the white key they are written against — below when flats are in
/// force, above otherwise.
pub open spec fn spec_staff_step(midi: int, flat: bool) -> int {
    let octave = midi / 12 - 1;
    let k = midi % 12;
    let step: int = if flat {
        if k == 0 {
            0
        } else if k == 1 || k == 2 {
            1
        } else if k == 3 || k == 4 {
            2
        } else if k == 5 {
            3
        } else if k == 6 || k == 7 {
            4
        } else if k == 8 || k == 9 {
            5
        } else {
            6
        }
    } else {
        if k == 0 || k == 1 {
            0
        } else if k == 2 || k == 3 {
            1
        } else if k == 4 {
            2
        } else if k == 5 || k == 6 {
            3
        } else if k == 7 || k == 8 {
            4
        } else if k == 9 || k == 10 {
            5
        } else {
            6
        }
    };
    octave * 7 + step
}

/// Computes where on the staff a pitch is drawn.
pub fn get_staff_step(midi: i32, flat: bool) -> (r: i32)
    requires
        midi >= 0,
    ensures
        r == spec_staff_step(midi as int, flat),
{
    let octave = midi / 12 - 1;
    let k = midi % 12;
    let step: i32 = if flat {
        if k == 0 {
            0
        } else if k == 1 || k == 2 {
            1
        } else if k == 3 || k == 4 {
            2
        } else if k == 5 {
            3
        } else if k == 6 || k == 7 {
            4
        } else if k == 8 || k == 9 {
            5
        } else {
            6
        }
    } else {
        if k == 0 || k == 1 {
            0
        } else if k == 2 || k == 3 {
            1
        } else if k == 4 {
            2
        } else if k == 5 || k == 6 {
            3
        } else if k == 7 || k == 8 {
            4
        } else if k == 9 || k == 10 {
            5
        } else {
            6
        }
    };
    octave * 7 + step
}

} // verus!
