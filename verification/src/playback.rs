//! The computational side of playback and visualization: the colour a
//! channel is drawn in, and the work a pull-style audio callback does
//! on the rendered sample buffer.

use vstd::prelude::*;

verus! {

/// A plain RGB colour.
#[derive(Clone, Copy, Debug, PartialEq, Eq, Structural)]
pub struct Rgb {
    pub r: u8,
    pub g: u8,
    pub b: u8,
}

/// The colour assigned to a channel: grey for the percussion channel,
/// a fixed palette of nine colours for the rest, repeating.
pub open spec fn spec_channel_color(channel: i32) -> Rgb {
    if channel == 9 {
        Rgb { r: 150, g: 150, b: 150 }
    } else {
        let k = channel % 9;
        if k == 0 {
            Rgb { r: 0, g: 220, b: 220 }
        } else if k == 1 {
            Rgb { r: 255, g: 0, b: 200 }
        } else if k == 2 {
            Rgb { r: 255, g: 220, b: 0 }
        } else if k == 3 {
            Rgb { r: 0, g: 200, b: 100 }
        } else if k == 4 {
            Rgb { r: 100, g: 100, b: 255 }
        } else if k == 5 {
            Rgb { r: 255, g: 100, b: 100 }
        } else if k == 6 {
            Rgb { r: 200, g: 0, b: 255 }
        } else if k == 7 {
            Rgb { r: 0, g: 255, b: 100 }
        } else if k == 8 {
            Rgb { r: 255, g: 128, b: 0 }
        } else {
            Rgb { r: 255, g: 255, b: 255 }
        }
    }
}

/// Picks the colour a channel is drawn in.
pub fn get_channel_color(channel: i32) -> (c: Rgb)
    requires
        channel >= 0,
    ensures
        c == spec_channel_color(channel),
{
    if channel == 9 {
        return Rgb { r: 150, g: 150, b: 150 };
    }
    let k = channel % 9;
    if k == 0 {
        Rgb { r: 0, g: 220, b: 220 }
    } else if k == 1 {
        Rgb { r: 255, g: 0, b: 200 }
    } else if k == 2 {
        Rgb { r: 255, g: 220, b: 0 }
    } else if k == 3 {
        Rgb { r: 0, g: 200, b: 100 }
    } else if k == 4 {
        Rgb { r: 100, g: 100, b: 255 }
    } else if k == 5 {
        Rgb { r: 255, g: 100, b: 100 }
    } else if k == 6 {
        Rgb { r: 200, g: 0, b: 255 }
    } else if k == 7 {
        Rgb { r: 0, g: 255, b: 100 }
    } else {
        Rgb { r: 255, g: 128, b: 0 }
    }
}

/// Fills an output block from the sample buffer: samples are copied
/// from `cursor` on, silence once they run out, and the cursor moves
/// past what was copied. This is the whole work of a pull-style audio
/// callback.
#[verifier::loop_isolation(false)]
pub fn fill_playback(samples: &Vec<i16>, cursor: usize, out: &mut Vec<i16>) -> (nc: usize)
    ensures
        final(out)@.len() == old(out)@.len(),
        forall|i: int|
            0 <= i < old(out)@.len() ==> final(out)@[i] == (if cursor + i < samples@.len() {
                samples@[cursor + i]
            } else {
                0i16
            }),
        cursor <= samples@.len() ==> nc == (if cursor + old(out)@.len() <= samples@.len() {
            cursor + old(out)@.len()
        } else {
            samples@.len() as int
        }),
        cursor > samples@.len() ==> nc == cursor,
{
    let n = out.len();
    let mut cur = cursor;
    let mut i: usize = 0;
    while i < n
        invariant
            i <= n,
            out@.len() == n,
            forall|j: int|
                0 <= j < i ==> out@[j] == (if cursor + j < samples@.len() {
                    samples@[cursor + j]
                } else {
                    0i16
                }),
            cursor <= samples@.len() ==> cur == (if cursor + i <= samples@.len() {
                cursor + i
            } else {
                samples@.len() as int
            }),
            cursor > samples@.len() ==> cur == cursor,
        decreases n - i,
    {
        if cur < samples.len() {
            out.set(i, samples[cur]);
            cur = cur + 1;
        } else {
            out.set(i, 0);
        }
        i = i + 1;
    }
    cur
}

} // verus!
