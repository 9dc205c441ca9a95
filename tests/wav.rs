use wavnote::sample::BitDepth;
use wavnote::wav::{FormatError, WavFile, WavParams};

/// One period of a sine, scaled to `amp`, sampled `period` times.
fn sine(n: usize, period: f64, amp: f64) -> Vec<f64> {
    (0..n)
        .map(|i| (i as f64 / period * 2.0 * std::f64::consts::PI).sin() * amp)
        .collect()
}

fn le32(b: &[u8], off: usize) -> u32 {
    u32::from_le_bytes([b[off], b[off + 1], b[off + 2], b[off + 3]])
}

fn le16(b: &[u8], off: usize) -> u16 {
    u16::from_le_bytes([b[off], b[off + 1]])
}

/// Truncated sine notes and saw notes, mixed sample by sample.
#[test]
fn test_main() {
    let sample_rate: u32 = 44100;
    let half_note = 60.0 / 108.0;
    let n = (half_note * sample_rate as f64) as usize;
    let e4 = 440.0 / 2.0f64.powf(5.0 / 12.0);
    let mut data = Vec::new();
    let mut octave = Vec::new();
    for i in 0..n {
        let v = 0.5 * i16::MAX as f64 * (n as f64 - i as f64) / n as f64;
        let t = (i as f64 / sample_rate as f64 * e4 * 2.0 * std::f64::consts::PI).sin() * v;
        data.push(BitDepth::U16(t as i16));
        let p = sample_rate as f64 / (e4 / 2.0);
        octave.push(BitDepth::U16((((i as f64 % p) / p - 0.5) * v) as i16));
    }
    let output: Vec<BitDepth> = data.iter().zip(octave.iter()).map(|(a, b)| a.add(*b)).collect();
    let wav = WavFile::new(WavParams { sample_rate, channels: 1 }, output.clone());
    assert_eq!(wav.hdr.fmt_ck.bits_per_sample, 16);
    let bytes = wav.encode();
    assert_eq!(bytes.len() % 2, 0);
    let back = WavFile::decode(&bytes).unwrap();
    assert_eq!(back.data, output);
}

#[test]
fn header_fields_are_derived() {
    let wav = WavFile::new(
        WavParams { sample_rate: 8000, channels: 2 },
        vec![BitDepth::U16(1), BitDepth::U16(-1), BitDepth::U16(300), BitDepth::U16(-300)],
    );
    assert_eq!(wav.hdr.riff_hdr.size, 36 + 8);
    assert_eq!(wav.hdr.fmt_ck.size, 16);
    assert_eq!(wav.hdr.fmt_ck.fmt_tag, 1);
    assert_eq!(wav.hdr.fmt_ck.byte_rate, 8000 * 2 * 2);
    assert_eq!(wav.hdr.fmt_ck.block_align, 4);
    assert_eq!(wav.hdr.data_hdr.size, 8);
    let b = wav.encode();
    assert_eq!(&b[0..4], b"RIFF");
    assert_eq!(&b[8..16], b"WAVEfmt ");
    assert_eq!(&b[36..40], b"data");
    assert_eq!(le32(&b, 4), 44);
    assert_eq!(le16(&b, 22), 2);
    assert_eq!(le32(&b, 24), 8000);
    assert_eq!(le32(&b, 28), 32000);
    assert_eq!(le16(&b, 32), 4);
    assert_eq!(le16(&b, 34), 16);
    assert_eq!(le32(&b, 40), 8);
    assert_eq!(&b[44..52], &[1, 0, 0xff, 0xff, 0x2c, 0x01, 0xd4, 0xfe]);
}

#[test]
fn round_trip_every_depth() {
    let sets = vec![
        vec![BitDepth::U8(-128), BitDepth::U8(0), BitDepth::U8(127)],
        vec![BitDepth::U16(i16::MIN), BitDepth::U16(-2), BitDepth::U16(i16::MAX)],
        vec![BitDepth::U32(i32::MIN), BitDepth::U32(-70000), BitDepth::U32(i32::MAX)],
    ];
    for data in sets {
        let wav = WavFile::new(WavParams { sample_rate: 44100, channels: 1 }, data.clone());
        let back = WavFile::decode(&wav.encode()).unwrap();
        assert_eq!(back.data, data);
        assert_eq!(back.hdr, wav.hdr);
    }
    let samples: Vec<BitDepth> = sine(500, 50.0, 30000.0).iter().map(|v| BitDepth::U16(*v as i16)).collect();
    let wav = WavFile::new(WavParams { sample_rate: 22050, channels: 1 }, samples.clone());
    let back = WavFile::decode(&wav.encode()).unwrap();
    assert_eq!(back.data, samples);
}

#[test]
fn odd_data_is_padded_but_not_counted() {
    let wav = WavFile::new(
        WavParams { sample_rate: 8000, channels: 1 },
        vec![BitDepth::U8(1), BitDepth::U8(2), BitDepth::U8(3)],
    );
    let b = wav.encode();
    assert_eq!(b.len(), 48);
    assert_eq!(le32(&b, 40), 3);
    assert_eq!(b[47], 0);
    let back = WavFile::decode(&b).unwrap();
    assert_eq!(back.data, vec![BitDepth::U8(1), BitDepth::U8(2), BitDepth::U8(3)]);
}

#[test]
fn decode_errors() {
    let wav = WavFile::new(WavParams { sample_rate: 8000, channels: 1 }, vec![BitDepth::U16(7); 4]);
    let good = wav.encode();

    let mut bad = good.clone();
    bad[0] = b'X';
    assert_eq!(WavFile::decode(&bad).err(), Some(FormatError::BadMagic));

    let mut bad = good.clone();
    bad[34] = 24;
    assert_eq!(WavFile::decode(&bad).err(), Some(FormatError::UnsupportedBitDepth));

    assert_eq!(WavFile::decode(&good[..50]).err(), Some(FormatError::Truncated));
    assert_eq!(WavFile::decode(&good[..20]).err(), Some(FormatError::Truncated));
    assert_eq!(WavFile::decode(b"RI").err(), Some(FormatError::Truncated));

    let mut bad = good.clone();
    bad[24..28].copy_from_slice(&u32::MAX.to_le_bytes());
    assert_eq!(WavFile::decode(&bad).err(), Some(FormatError::HeaderOverflow));
}

#[test]
fn decode_uses_whole_samples_of_declared_size() {
    let wav = WavFile::new(WavParams { sample_rate: 8000, channels: 1 }, vec![BitDepth::U32(5), BitDepth::U32(-5)]);
    let mut b = wav.encode();
    b[40] = 7; // 7 bytes: one whole 32-bit sample
    let back = WavFile::decode(&b).unwrap();
    assert_eq!(back.data, vec![BitDepth::U32(5)]);
    assert_eq!(back.hdr.data_hdr.size, 4);
}
