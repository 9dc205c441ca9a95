//! From windows of samples to note names.
use vstd::prelude::*;
use crate::sample::BitDepth;
use crate::amdf::{amdf, amplitudes, amps, period_of, has_two_minima, DetectionError, MAX_WINDOW};
use crate::notation::{freq_to_note, is_nearest, note_label, ascending, NOTE_COUNT};

verus! {

/// `rate / period` in millihertz, rounded down.
pub open spec fn millihertz(rate: u32, period: int) -> int {
    rate * 1000 / period
}

/// Frequency of a period of `period` samples at `sample_rate` samples per
/// second, in millihertz.
pub fn period_to_millihertz(sample_rate: u32, period: usize) -> (r: u64)
    requires
        period > 0,
    ensures
        r as int == millihertz(sample_rate, period as int),
{
    (sample_rate as u64 * 1000) / (period as u64)
}

/// What analysing the amplitudes `x` gives against a millihertz scale:
/// the note nearest to the detected frequency, or no period.
pub open spec fn window_result(
    x: Seq<i32>,
    sample_rate: u32,
    scale: Seq<u64>,
    r: Result<String, DetectionError>,
) -> bool {
    match r {
        Ok(name) => exists|p: int, i: int|
            p > 0 && period_of(x, p) && is_nearest(scale, millihertz(sample_rate, p) as u64, i)
                && name@ == note_label(i),
        Err(_) => !has_two_minima(x),
    }
}

/// The note sounding in one window of samples, or why none was found.
pub fn note_of_window(window: &[BitDepth], sample_rate: u32, scale: &[u64]) -> (r: Result<
    String,
    DetectionError,
>)
    requires
        window@.len() <= MAX_WINDOW,
        0 < scale@.len() <= NOTE_COUNT,
        ascending(scale@),
    ensures
        window_result(amps(window@), sample_rate, scale@, r),
{
    let x = amplitudes(window);
    match amdf(x.as_slice()) {
        Ok(p) => {
            let f = period_to_millihertz(sample_rate, p);
            let name = freq_to_note(scale, f);
            Ok(name)
        },
        Err(e) => Err(e),
    }
}

/// Splits `data` into consecutive windows of `window` samples, starting
/// at 0, `window`, `2 * window`, ..., each start lying before
/// `data.len() - window`, and names the note of each.
pub fn detect_notes(data: &[BitDepth], sample_rate: u32, window: usize, scale: &[u64]) -> (r: Vec<
    Result<String, DetectionError>,
>)
    requires
        0 < window <= MAX_WINDOW,
        0 < scale@.len() <= NOTE_COUNT,
        ascending(scale@),
    ensures
        data@.len() <= window ==> r@.len() == 0,
        data@.len() > window ==> (r@.len() - 1) * window < data@.len() - window <= r@.len()
            * window,
        forall|i: int|
            0 <= i < r@.len() ==> window_result(
                amps(data@.subrange(i * window, i * window + window)),
                sample_rate,
                scale@,
                #[trigger] r@[i],
            ),
{
    let mut out: Vec<Result<String, DetectionError>> = Vec::new();
    if data.len() <= window {
        return out;
    }
    let last = data.len() - window;
    let mut start: usize = 0;
    assert(out@.len() == 0);
    assert(out@.len() * window == 0) by (nonlinear_arith)
        requires out@.len() == 0;
    while start < last
        invariant
            data@.len() > window,
            last == data@.len() - window,
            0 < window <= MAX_WINDOW,
            0 < scale@.len() <= NOTE_COUNT,
            ascending(scale@),
            start == out@.len() * window,
            out@.len() == 0 || start - window < last,
            forall|i: int|
                0 <= i < out@.len() ==> window_result(
                    amps(data@.subrange(i * window, i * window + window)),
                    sample_rate,
                    scale@,
                    #[trigger] out@[i],
                ),
        decreases data@.len() - start,
    {
        proof {
            let k = out@.len() as int;
            assert(k * window + window == (k + 1) * window) by (nonlinear_arith);
        }
        let end: usize = data.len() - (last - start);
        let w = &data[start..end];
        let res = note_of_window(w, sample_rate, scale);
        out.push(res);
        start = end;
    }
    assert(out@.len() > 0);
    assert((out@.len() - 1) * window == start - window) by (nonlinear_arith)
        requires start == out@.len() * window;
    out
}

} // verus!
