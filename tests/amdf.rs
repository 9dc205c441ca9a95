use wavnote::amdf::{amdf, amplitudes, DetectionError};
use wavnote::detect::{detect_notes, note_of_window, period_to_millihertz};
use wavnote::notation::NOTE_COUNT;
use wavnote::sample::BitDepth;

fn sine_window(freq: f64, rate: f64, n: usize, amp: f64) -> Vec<i32> {
    (0..n)
        .map(|i| ((i as f64 / rate) * freq * 2.0 * std::f64::consts::PI).sin() * amp)
        .map(|v| v.round() as i32)
        .collect()
}

fn gen_notes() -> Vec<u64> {
    let semitone = 2.0f64.powf(1.0 / 12.0);
    (0..NOTE_COUNT).map(|n| (27.5 * semitone.powf(n as f64) * 1000.0).round() as u64).collect()
}

#[test]
fn sine_period_is_recovered() {
    for (freq, rate) in [(441.0, 44100.0), (220.5, 44100.0), (1000.0, 48000.0), (100.0, 8000.0)] {
        let n = (rate / 20.0) as usize;
        let x = sine_window(freq, rate, n, 10000.0);
        let p = amdf(&x).unwrap() as f64;
        let expected = rate / freq;
        assert!((p - expected).abs() <= 2.0, "period {} for expected {}", p, expected);
    }
}

#[test]
fn silence_has_no_period() {
    assert_eq!(amdf(&vec![0; 2205]), Err(DetectionError::NoPeriod));
    assert_eq!(amdf(&vec![-42; 300]), Err(DetectionError::NoPeriod));
}

#[test]
fn short_windows_have_no_period() {
    assert_eq!(amdf(&[]), Err(DetectionError::NoPeriod));
    assert_eq!(amdf(&[1]), Err(DetectionError::NoPeriod));
    assert_eq!(amdf(&[1, -1, 1, -1, 1]), Err(DetectionError::NoPeriod));
    // less than two periods of a slow sine
    let x = sine_window(10.0, 1000.0, 150, 1000.0);
    assert_eq!(amdf(&x), Err(DetectionError::NoPeriod));
}

#[test]
fn square_wave_period() {
    let x: Vec<i32> = (0..64).map(|i| if (i / 4) % 2 == 0 { 100 } else { -100 }).collect();
    assert_eq!(amdf(&x), Ok(8));
}

#[test]
fn amplitudes_widen_each_depth() {
    let d = vec![BitDepth::U8(-3), BitDepth::U16(-300), BitDepth::U32(70000)];
    assert_eq!(amplitudes(&d), vec![-3, -300, 70000]);
}

#[test]
fn millihertz_of_period() {
    assert_eq!(period_to_millihertz(44100, 100), 441_000);
    assert_eq!(period_to_millihertz(44100, 3), 14_700_000);
    assert_eq!(period_to_millihertz(8000, 7), 1_142_857);
}

#[test]
fn pure_tone_is_named() {
    let notes = gen_notes();
    let x: Vec<BitDepth> = sine_window(440.0, 44100.0, 2205, 12000.0).iter().map(|v| BitDepth::U16(*v as i16)).collect();
    assert_eq!(note_of_window(&x, 44100, &notes), Ok("A4".to_string()));
    let silent = vec![BitDepth::U16(0); 2205];
    assert_eq!(note_of_window(&silent, 44100, &notes), Err(DetectionError::NoPeriod));
}

#[test]
fn windows_of_a_tone_and_silence() {
    let notes = gen_notes();
    let mut data: Vec<BitDepth> = sine_window(440.0, 44100.0, 2205 * 2, 12000.0).iter().map(|v| BitDepth::U16(*v as i16)).collect();
    data.extend(vec![BitDepth::U16(0); 2205 * 2]);
    let r = detect_notes(&data, 44100, 2205, &notes);
    assert_eq!(r.len(), 3);
    assert_eq!(r[0], Ok("A4".to_string()));
    assert_eq!(r[1], Ok("A4".to_string()));
    assert_eq!(r[2], Err(DetectionError::NoPeriod));
    assert!(detect_notes(&data[..2205], 44100, 2205, &notes).is_empty());
    assert_eq!(detect_notes(&data[..2206], 44100, 2205, &notes).len(), 1);
}

#[test]
fn mixing_promotes_and_wraps() {
    assert_eq!(BitDepth::U8(100).add(BitDepth::U8(100)), BitDepth::U8(-56));
    assert_eq!(BitDepth::U8(1).add(BitDepth::U16(2)), BitDepth::U16(3));
    assert_eq!(BitDepth::U16(-5).add(BitDepth::U8(100)), BitDepth::U16(95));
    assert_eq!(BitDepth::U16(i16::MAX).add(BitDepth::U32(1)), BitDepth::U32(32768));
    assert_eq!(BitDepth::U32(i32::MAX).add(BitDepth::U8(1)), BitDepth::U32(i32::MIN));
    assert_eq!(BitDepth::U16(1000).add(BitDepth::U16(-1000)), BitDepth::U16(0));
}

#[test]
fn samples_past_the_end_are_silent() {
    let d = vec![BitDepth::U16(-7), BitDepth::U16(9)];
    assert_eq!(wavnote::sample::sample_at(&d, 0), -7);
    assert_eq!(wavnote::sample::sample_at(&d, 1), 9);
    assert_eq!(wavnote::sample::sample_at(&d, 2), 0);
    assert_eq!(wavnote::sample::sample_at(&d, usize::MAX), 0);
}
