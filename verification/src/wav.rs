//! Packaging samples as an uncompressed RIFF/WAVE file: a 44-byte
//! header followed by little-endian signed 16-bit mono samples.
//!
//! The encoder takes the samples as 32-bit integers (the synthesizer's
//! scaled output, truncated toward zero), clamps each into the signed
//! 16-bit range, and stores it as two little-endian bytes.

use vstd::prelude::*;

verus! {

/// Samples per second of the rendered audio.
pub const SAMPLE_RATE: u32 = 44100;

/// The two little-endian bytes of a 16-bit value.
pub open spec fn le16(v: u16) -> Seq<u8> {
    seq![(v % 0x100) as u8, (v / 0x100) as u8]
}

/// The four little-endian bytes of a 32-bit value.
pub open spec fn le32(v: u32) -> Seq<u8> {
    seq![
        (v % 0x100) as u8,
        ((v / 0x100) % 0x100) as u8,
        ((v / 0x10000) % 0x100) as u8,
        (v / 0x1000000) as u8,
    ]
}

/// The little-endian 32-bit value at `pos`.
pub open spec fn spec_le32_at(bytes: Seq<u8>, pos: int) -> int {
    bytes[pos] + 0x100 * bytes[pos + 1] + 0x10000 * bytes[pos + 2] + 0x1000000 * bytes[pos + 3]
}

/// A sample clamped into the signed 16-bit range.
pub open spec fn clamp_i16(v: i32) -> i16 {
    if v < -32768 {
        -32768i16
    } else if v > 32767 {
        32767i16
    } else {
        v as i16
    }
}

/// The two's-complement, little-endian bytes of a signed 16-bit value.
pub open spec fn le16_signed(v: i16) -> Seq<u8> {
    if v >= 0 {
        le16(v as u16)
    } else {
        le16((v + 0x10000) as u16)
    }
}

/// The PCM data: each sample clamped and stored as two little-endian
/// bytes.
pub open spec fn spec_pcm_bytes(samples: Seq<i32>) -> Seq<u8> {
    Seq::new(2 * samples.len(), |i: int| le16_signed(clamp_i16(samples[i / 2]))[i % 2])
}

/// The 44-byte container header for `num_samples` 16-bit mono samples
/// at the fixed sample rate.
pub open spec fn spec_wav_header(num_samples: u32) -> Seq<u8>
    recommends
        36 + 2 * num_samples <= u32::MAX,
{
    let data_bytes = (2 * num_samples) as u32;
    let file_size = (36 + 2 * num_samples) as u32;
    seq![0x52u8, 0x49, 0x46, 0x46]  // "RIFF"
     + le32(file_size) + seq![0x57u8, 0x41, 0x56, 0x45]  // "WAVE"
     + seq![0x66u8, 0x6D, 0x74, 0x20]  // "fmt "
     + le32(16)  // format-chunk size
     + le16(1)  // linear PCM
     + le16(1)  // mono
     + le32(44100)  // sample rate
     + le32(88200)  // byte rate
     + le16(2)  // block align
     + le16(16)  // bits per sample
     + seq![0x64u8, 0x61, 0x74, 0x61]  // "data"
     + le32(data_bytes)
}

/// A whole file: the header for the sample count, then the PCM data.
pub open spec fn spec_wav_file(samples: Seq<i32>) -> Seq<u8> {
    spec_wav_header(samples.len() as u32) + spec_pcm_bytes(samples)
}

fn push_le16(out: &mut Vec<u8>, v: u16)
    ensures
        final(out)@ == old(out)@ + le16(v),
{
    out.push((v % 0x100) as u8);
    out.push((v / 0x100) as u8);
    assert(out@ =~= old(out)@ + le16(v));
}

fn push_le32(out: &mut Vec<u8>, v: u32)
    ensures
        final(out)@ == old(out)@ + le32(v),
{
    out.push((v % 0x100) as u8);
    out.push(((v / 0x100) % 0x100) as u8);
    out.push(((v / 0x10000) % 0x100) as u8);
    assert(v / 0x1000000 <= 0xFF);
    out.push((v / 0x1000000) as u8);
    assert(out@ =~= old(out)@ + le32(v));
}

/// Builds the 44-byte container header for `num_samples` samples.
pub fn wav_header(num_samples: u32) -> (h: Vec<u8>)
    requires
        36 + 2 * num_samples <= u32::MAX,
    ensures
        h@ == spec_wav_header(num_samples),
        h@.len() == 44,
{
    let data_bytes: u32 = 2 * num_samples;
    let file_size: u32 = 36 + data_bytes;
    let mut h: Vec<u8> = Vec::new();
    h.push(0x52);
    h.push(0x49);
    h.push(0x46);
    h.push(0x46);
    push_le32(&mut h, file_size);
    h.push(0x57);
    h.push(0x41);
    h.push(0x56);
    h.push(0x45);
    h.push(0x66);
    h.push(0x6D);
    h.push(0x74);
    h.push(0x20);
    push_le32(&mut h, 16);
    push_le16(&mut h, 1);
    push_le16(&mut h, 1);
    push_le32(&mut h, 44100);
    push_le32(&mut h, 88200);
    push_le16(&mut h, 2);
    push_le16(&mut h, 16);
    h.push(0x64);
    h.push(0x61);
    h.push(0x74);
    h.push(0x61);
    push_le32(&mut h, data_bytes);
    assert(h@ =~= spec_wav_header(num_samples));
    h
}

/// Clamps a scaled sample into the signed 16-bit range.
pub fn clamp_sample(v: i32) -> (r: i16)
    ensures
        r == clamp_i16(v),
{
    if v < -32768 {
        -32768
    } else if v > 32767 {
        32767
    } else {
        v as i16
    }
}

/// Encodes the samples as PCM data: each clamped and stored as two
/// little-endian bytes.
#[verifier::loop_isolation(false)]
pub fn encode_samples(samples: &Vec<i32>) -> (r: Vec<u8>)
    requires
        2 * samples@.len() <= usize::MAX,
    ensures
        r@ == spec_pcm_bytes(samples@),
{
    let mut out: Vec<u8> = Vec::new();
    let mut i: usize = 0;
    while i < samples.len()
        invariant
            i <= samples@.len(),
            out@ =~= spec_pcm_bytes(samples@.take(i as int)),
        decreases samples@.len() - i,
    {
        let c = clamp_sample(samples[i]);
        let u: u16 = if c >= 0 {
            c as u16
        } else {
            ((c as i32) + 0x10000) as u16
        };
        out.push((u % 0x100) as u8);
        out.push((u / 0x100) as u8);
        proof {
            assert(le16_signed(clamp_i16(samples@[i as int])) =~= le16(u));
            assert(out@ =~= spec_pcm_bytes(samples@.take(i + 1 as int)));
        }
        i = i + 1;
    }
    proof {
        assert(samples@.take(samples@.len() as int) =~= samples@);
    }
    out
}

/// Renders a whole container file in memory: the header, then the PCM
/// data, so that nothing is written to disk until the bytes are
/// complete.
pub fn render_wav(samples: &Vec<i32>) -> (r: Vec<u8>)
    requires
        36 + 2 * samples@.len() <= u32::MAX,
    ensures
        r@ == spec_wav_file(samples@),
        r@.len() == 44 + 2 * samples@.len(),
{
    let mut out = wav_header(samples.len() as u32);
    let mut data = encode_samples(samples);
    out.append(&mut data);
    assert(out@ =~= spec_wav_file(samples@));
    out
}

/// The sample index of a point in time: microseconds times the sample
/// rate, truncated, capped at the largest index the machine can hold.
pub open spec fn spec_time_to_samples(us: u64) -> int {
    let s = (us * 44100) / 1000000;
    if s > usize::MAX {
        usize::MAX as int
    } else {
        s
    }
}

/// Converts a duration in microseconds to a sample count.
pub fn duration_to_samples(us: u64) -> (r: usize)
    ensures
        r == spec_time_to_samples(us),
{
    let wide: u128 = (us as u128) * 44100 / 1000000;
    if wide > usize::MAX as u128 {
        usize::MAX
    } else {
        wide as usize
    }
}

/// The slice of the mix buffer a note writes into: it starts at its
/// start time's sample, covers its duration plus the fixed 0.1-second
/// release tail, and is cut off at the end of the buffer — whatever
/// falls beyond is dropped.
pub fn mix_bounds(start_us: u64, duration_us: u64, total_samples: usize) -> (r: (usize, usize))
    ensures
        r.0 == spec_time_to_samples(start_us),
        ({
            let len = spec_time_to_samples(
                if duration_us + 100000 > u64::MAX {
                    u64::MAX
                } else {
                    (duration_us + 100000) as u64
                },
            );
            r.1 == if r.0 + len > total_samples {
                total_samples as int
            } else {
                r.0 + len
            }
        }),
        r.0 <= r.1 <= total_samples || (r.0 >= total_samples && r.1 == total_samples),
{
    let start_s = duration_to_samples(start_us);
    let len_s = duration_to_samples(duration_us.saturating_add(100000));
    let end = if len_s > total_samples || start_s > total_samples - len_s {
        total_samples
    } else {
        start_s + len_s
    };
    (start_s, end)
}

/// Header integrity: in every rendered file the declared file size —
/// the little-endian field at offset 4 — is 36 plus the data size, the
/// declared data size at offset 40 is twice the sample count, and the
/// whole file is 8 bytes longer than the declared file size.
pub proof fn lemma_header_integrity(samples: Seq<i32>)
    requires
        36 + 2 * samples.len() <= u32::MAX,
    ensures
        ({
            let f = spec_wav_file(samples);
            &&& f.len() == 44 + 2 * samples.len()
            &&& spec_le32_at(f, 40) == 2 * samples.len()
            &&& spec_le32_at(f, 4) == 36 + spec_le32_at(f, 40)
            &&& f.len() == 8 + spec_le32_at(f, 4)
        }),
{
    let f = spec_wav_file(samples);
    let n = samples.len() as u32;
    let data_bytes = (2 * n) as u32;
    let file_size = (36 + 2 * n) as u32;
    let h = spec_wav_header(n);
    assert(h.len() == 44);
    assert(f[4] == le32(file_size)[0] && f[5] == le32(file_size)[1] && f[6] == le32(file_size)[2]
        && f[7] == le32(file_size)[3]);
    assert(f[40] == le32(data_bytes)[0] && f[41] == le32(data_bytes)[1] && f[42] == le32(
        data_bytes,
    )[2] && f[43] == le32(data_bytes)[3]);
    lemma_le32_value(file_size);
    lemma_le32_value(data_bytes);
}

/// Reading back the four little-endian bytes of a 32-bit value gives
/// the value.
proof fn lemma_le32_value(v: u32)
    ensures
        le32(v)[0] + 0x100 * le32(v)[1] + 0x10000 * le32(v)[2] + 0x1000000 * le32(v)[3] == v,
{
    vstd::arithmetic::div_mod::lemma_fundamental_div_mod(v as int, 0x100);
    vstd::arithmetic::div_mod::lemma_fundamental_div_mod(v as int / 0x100, 0x100);
    vstd::arithmetic::div_mod::lemma_fundamental_div_mod(v as int / 0x10000, 0x100);
    assert(v as int / 0x10000 == (v as int / 0x100) / 0x100) by (nonlinear_arith);
    assert(v as int / 0x1000000 == (v as int / 0x10000) / 0x100) by (nonlinear_arith);
}

} // verus!
