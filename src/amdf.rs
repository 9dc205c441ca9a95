//! Average magnitude difference function: period estimation on integer
//! amplitudes. The averages `G(k) = S(k) / (L - k)` are compared exactly,
//! by cross-multiplying the sums `S(k)` with the denominators.
use vstd::prelude::*;
use crate::sample::BitDepth;

verus! {

/// Fewer than two local minima of the difference function: the window
/// holds no usable period.
#[derive(Debug, Clone, Copy, PartialEq, Eq, Structural)]
pub enum DetectionError {
    NoPeriod,
}

/// Largest window, so that sums and cross products fit in 64 and 128 bits.
pub const MAX_WINDOW: usize = 0xffff_ffff;

pub open spec fn abs_diff(x: Seq<i32>, s: int, k: int) -> int {
    let d = x[s] - x[s + k];
    if d < 0 { -d } else { d }
}

/// `|x[s] - x[s + k]|` summed over `s < m`.
pub open spec fn sad_upto(x: Seq<i32>, k: int, m: nat) -> int
    decreases m,
{
    if m == 0 {
        0
    } else {
        sad_upto(x, k, (m - 1) as nat) + abs_diff(x, m - 1, k)
    }
}

/// The sum `S(k)` over every pair `k` apart: `L - k` terms.
pub open spec fn sad(x: Seq<i32>, k: int) -> int {
    sad_upto(x, k, (x.len() - k) as nat)
}

/// `G(a) > G(b)`, with `G(k) = S(k) / (L - k)`.
pub open spec fn g_gt(x: Seq<i32>, a: int, b: int) -> bool {
    sad(x, a) * (x.len() - b) > sad(x, b) * (x.len() - a)
}

/// An interior lag (neither lag 0 nor the last one) where `G` is strictly
/// below both neighbours.
pub open spec fn is_local_min(x: Seq<i32>, s: int) -> bool {
    &&& 1 <= s
    &&& s + 3 <= x.len()
    &&& g_gt(x, s - 1, s)
    &&& g_gt(x, s + 1, s)
}

/// `a < b` are the first two local minima.
pub open spec fn first_two_minima(x: Seq<i32>, a: int, b: int) -> bool {
    &&& a < b
    &&& is_local_min(x, a)
    &&& is_local_min(x, b)
    &&& forall|s: int| 0 <= s < b && s != a ==> !is_local_min(x, s)
}

/// `p` is the distance between the first two local minima.
pub open spec fn period_of(x: Seq<i32>, p: int) -> bool {
    exists|a: int, b: int| first_two_minima(x, a, b) && p == b - a
}

/// The amplitudes of a sequence of samples.
pub open spec fn amps(d: Seq<BitDepth>) -> Seq<i32> {
    d.map_values(|s: BitDepth| s.spec_amplitude() as i32)
}

pub open spec fn has_two_minima(x: Seq<i32>) -> bool {
    exists|a: int, b: int| a < b && is_local_min(x, a) && is_local_min(x, b)
}

/// The distance between the first two local minima of `G`, in samples.
pub fn amdf(x: &[i32]) -> (r: Result<usize, DetectionError>)
    requires
        x@.len() <= MAX_WINDOW,
    ensures
        match r {
            Ok(p) => p > 0 && period_of(x@, p as int),
            Err(_) => !has_two_minima(x@),
        },
{
    let n = x.len();
    if n < 3 {
        return Err(DetectionError::NoPeriod);
    }
    let mut g: Vec<u64> = Vec::new();
    let mut k: usize = 0;
    while k < n - 1
        invariant
            n == x@.len(),
            3 <= n <= MAX_WINDOW,
            k <= n - 1,
            g@.len() == k,
            forall|j: int| 0 <= j < k ==> g@[j] as int == sad(x@, j),
        decreases n - 1 - k,
    {
        let mut acc: u64 = 0;
        let mut s: usize = 0;
        while s < n - k
            invariant
                n == x@.len(),
                3 <= n <= MAX_WINDOW,
                k < n - 1,
                s <= n - k,
                acc as int == sad_upto(x@, k as int, s as nat),
                acc <= s * 0xffff_ffffu64,
            decreases n - k - s,
        {
            let d: i64 = x[s] as i64 - x[s + k] as i64;
            let a: u64 = if d < 0 { (-d) as u64 } else { d as u64 };
            assert(a <= 0xffff_ffffu64);
            assert(acc + a <= (s + 1) * 0xffff_ffffu64) by (nonlinear_arith)
                requires acc <= s * 0xffff_ffffu64, a <= 0xffff_ffffu64;
            assert((s + 1) * 0xffff_ffffu64 <= 0xffff_ffffu64 * 0xffff_ffffu64) by (nonlinear_arith)
                requires s + 1 <= 0xffff_ffffu64;
            acc = acc + a;
            s = s + 1;
        }
        g.push(acc);
        k = k + 1;
    }
    let mut first: Option<usize> = None;
    let mut s: usize = 1;
    while s < n - 2
        invariant
            n == x@.len(),
            3 <= n <= MAX_WINDOW,
            1 <= s <= n,
            g@.len() == n - 1,
            forall|j: int| 0 <= j < n - 1 ==> g@[j] as int == sad(x@, j),
            match first {
                Some(a) => 1 <= a < s && is_local_min(x@, a as int) && forall|t: int|
                    0 <= t < s && t != a ==> !is_local_min(x@, t),
                None => forall|t: int| 0 <= t < s ==> !is_local_min(x@, t),
            },
        decreases n - s,
    {
        if greater(&g, n, s - 1, s) && greater(&g, n, s + 1, s) {
            match first {
                Some(a) => {
                    assert(first_two_minima(x@, a as int, s as int));
                    return Ok(s - a);
                },
                None => {
                    first = Some(s);
                },
            }
        }
        s = s + 1;
    }
    assert forall|a: int, b: int| a < b && is_local_min(x@, a) implies !is_local_min(x@, b) by {
        match first {
            Some(f) => {
                if is_local_min(x@, b) {
                    assert(b == f);
                }
            },
            None => {},
        }
    }
    Err(DetectionError::NoPeriod)
}

/// `G(a) > G(b)`, given the sums of the window of length `n`.
fn greater(g: &Vec<u64>, n: usize, a: usize, b: usize) -> (r: bool)
    requires
        n <= MAX_WINDOW,
        g@.len() == n - 1,
        a < n - 1,
        b < n - 1,
    ensures
        r == (g@[a as int] as int * (n - b) > g@[b as int] as int * (n - a)),
{
    let ga: u128 = g[a] as u128;
    let gb: u128 = g[b] as u128;
    let da: u128 = (n - a) as u128;
    let db: u128 = (n - b) as u128;
    assert(ga * db <= 0xffff_ffff_ffff_ffffu128 * 0xffff_ffffu128) by (nonlinear_arith)
        requires ga <= 0xffff_ffff_ffff_ffffu128, db <= 0xffff_ffffu128;
    assert(gb * da <= 0xffff_ffff_ffff_ffffu128 * 0xffff_ffffu128) by (nonlinear_arith)
        requires gb <= 0xffff_ffff_ffff_ffffu128, da <= 0xffff_ffffu128;
    let lhs: u128 = ga * db;
    let rhs: u128 = gb * da;
    lhs > rhs
}

/// The amplitudes of a window of samples, as `i32`.
pub fn amplitudes(data: &[BitDepth]) -> (r: Vec<i32>)
    ensures
        r@ == amps(data@),
{
    let mut out: Vec<i32> = Vec::new();
    let mut i: usize = 0;
    while i < data.len()
        invariant
            i <= data@.len(),
            out@.len() == i,
            forall|j: int| 0 <= j < i ==> out@[j] as int == (#[trigger] data@[j]).spec_amplitude(),
        decreases data@.len() - i,
    {
        out.push(data[i].amplitude());
        i = i + 1;
    }
    assert(out@ =~= amps(data@));
    out
}


proof fn lemma_constant_sums(x: Seq<i32>, k: int, m: nat)
    requires
        0 <= k,
        m + k <= x.len(),
        forall|i: int| 0 <= i < x.len() ==> #[trigger] x[i] == x[0],
    ensures
        sad_upto(x, k, m) == 0,
    decreases m,
{
    if m > 0 {
        lemma_constant_sums(x, k, (m - 1) as nat);
        assert(x[m - 1] == x[0]);
        assert(x[m - 1 + k] == x[0]);
    }
}

/// A constant window (silence, or a DC offset) has no local minimum, so
/// no period is detected in it.
pub proof fn lemma_constant_no_period(x: Seq<i32>)
    requires
        forall|i: int| 0 <= i < x.len() ==> #[trigger] x[i] == x[0],
    ensures
        forall|s: int| !is_local_min(x, s),
        !has_two_minima(x),
{
    assert forall|s: int| !is_local_min(x, s) by {
        if 1 <= s && s + 3 <= x.len() {
            lemma_constant_sums(x, s - 1, (x.len() - (s - 1)) as nat);
            lemma_constant_sums(x, s, (x.len() - s) as nat);
        }
    }
}

/// Two local minima are never adjacent and both lie in `[1, L - 3]`, so a
/// window of fewer than six samples never yields a period.
pub proof fn lemma_short_window_no_period(x: Seq<i32>)
    requires
        x.len() < 6,
    ensures
        !has_two_minima(x),
{
    assert forall|a: int, b: int| a < b && is_local_min(x, a) implies !is_local_min(x, b) by {
        if is_local_min(x, b) {
            assert(b == a + 1);
            assert(g_gt(x, a + 1, a));
            assert(g_gt(x, a, a + 1));
        }
    }
}
} // verus!
