//! Building waveform mipmaps: each level halves the previous one.

use vstd::prelude::*;
use crate::mipmap::{MipmapLevel, WaveformMipmap, WaveformPoint};

verus! {

/// Reduction factor of the finest level: source frames per point.
pub const BASE_REDUCTION: u32 = 64;

/// Number of mipmap levels generated at most (up to 4096x reduction over
/// the finest level).
pub const NUM_LEVELS: usize = 12;

/// Whether `r` is the integer square root of `x`, rounded down.
pub open spec fn is_floor_sqrt(r: nat, x: nat) -> bool {
    r * r <= x < (r + 1) * (r + 1)
}

/// Integer square root of `x`, rounded down (`u64::isqrt`).
pub fn isqrt(x: u64) -> (r: u64)
    ensures
        is_floor_sqrt(r as nat, x as nat),
{
    // Invariant: lo * lo <= x < hi * hi.
    let mut lo: u64 = 0;
    let mut hi: u64 = 0x1_0000_0000;
    assert(0x1_0000_0000 * 0x1_0000_0000 > u64::MAX) by (nonlinear_arith);
    while hi - lo > 1
        invariant
            lo < hi <= 0x1_0000_0000,
            lo * lo <= x,
            x < hi * hi,
        decreases hi - lo,
    {
        let mid = lo + (hi - lo) / 2;
        assert(mid * mid <= 0xffff_ffff * 0xffff_ffff) by (nonlinear_arith)
            requires
                mid < 0x1_0000_0000,
        ;
        if mid * mid <= x {
            lo = mid;
        } else {
            hi = mid;
        }
    }
    assert(hi == lo + 1);
    lo
}

/// Two adjacent points combined into one covering both: the lower minimum,
/// the higher maximum, and the root mean square of the two RMS values,
/// rounded down.
pub open spec fn combined(a: WaveformPoint, b: WaveformPoint, c: WaveformPoint) -> bool {
    &&& c.min == (if a.min <= b.min { a.min } else { b.min })
    &&& c.max == (if a.max >= b.max { a.max } else { b.max })
    &&& is_floor_sqrt(c.rms as nat, ((a.rms * a.rms + b.rms * b.rms) / 2) as nat)
}

/// Whether `out` is `data` downsampled by two: one point per pair, an odd
/// last point dropped.
pub open spec fn is_halved(data: Seq<WaveformPoint>, out: Seq<WaveformPoint>) -> bool {
    &&& out.len() == data.len() / 2
    &&& forall|i: int| 0 <= i < out.len() ==> combined(data[2 * i], data[2 * i + 1], #[trigger] out[i])
}

/// Generates waveform mipmaps from audio data.
pub struct WaveformGenerator {
    /// Number of mipmap levels to generate.
    num_levels: usize,
}

impl WaveformGenerator {
    /// Number of levels this generator builds at most.
    pub closed spec fn levels_limit(&self) -> nat {
        self.num_levels as nat
    }

    /// A generator of up to twelve levels (4096x reduction range).
    pub fn new() -> (r: WaveformGenerator)
        ensures
            r.levels_limit() == NUM_LEVELS,
    {
        WaveformGenerator { num_levels: NUM_LEVELS }
    }

    /// Downsamples by two, combining each pair of points.
    pub fn downsample_2x(&self, data: &[WaveformPoint]) -> (r: Vec<WaveformPoint>)
        ensures
            is_halved(data@, r@),
    {
        let n = data.len();
        let num_points = n / 2;
        let mut result: Vec<WaveformPoint> = Vec::with_capacity(num_points);
        for i in 0..num_points
            invariant
                num_points == data@.len() / 2,
                n == data@.len(),
                result@.len() == i,
                forall|j: int| 0 <= j < i ==> combined(data@[2 * j], data@[2 * j + 1], #[trigger] result@[j]),
        {
            assert(i < num_points);
            assert(i + i + 1 < data@.len());
            let i2 = i + i;
            let a = data[i2];
            let b = data[i2 + 1];
            let ra = a.rms as u64;
            let rb = b.rms as u64;
            assert(ra * ra <= 0xffff * 0xffff && rb * rb <= 0xffff * 0xffff) by (nonlinear_arith)
                requires
                    ra <= 0xffff,
                    rb <= 0xffff,
            ;
            let mean = (ra * ra + rb * rb) / 2;
            let root = isqrt(mean);
            assert(root < 0x1_0000) by (nonlinear_arith)
                requires
                    root * root <= mean,
                    mean <= 0xffff * 0xffff,
            ;
            let p = WaveformPoint {
                min: if a.min <= b.min { a.min } else { b.min },
                max: if a.max >= b.max { a.max } else { b.max },
                rms: root as u16,
            };
            result.push(p);
        }
        result
    }

    /// Builds the mipmap of a track from its finest level `base` (one point
    /// per 64 frames): each further level downsamples the previous one by
    /// two and doubles the reduction, until the level limit is reached or a
    /// level has fewer than two points.
    pub fn generate_from_base(
        &self,
        base: Vec<WaveformPoint>,
        sample_rate: u32,
        total_frames: u64,
        channels: u16,
    ) -> (r: WaveformMipmap)
        requires
            self.levels_limit() == NUM_LEVELS,
        ensures
            r.sample_rate == sample_rate,
            r.total_samples == total_frames,
            r.channels == #[verifier::truncate] (channels as u8),
            pyramid(r.levels@, base@, self.levels_limit()),
    {
        let mut mipmap = WaveformMipmap::new(sample_rate, total_frames, #[verifier::truncate] (channels as u8));
        let base_copy = base.clone();
        mipmap.levels.push(MipmapLevel { reduction: BASE_REDUCTION, data: base });
        let mut current: Vec<WaveformPoint> = base_copy;
        let mut reduction: u32 = BASE_REDUCTION * 2;
        let mut k: usize = 1;
        proof {
            reveal_with_fuel(reduction_of_level, 2);
        }
        while k < self.num_levels
            invariant_except_break
                1 <= k <= NUM_LEVELS,
                self.num_levels == NUM_LEVELS,
                mipmap.levels@.len() == k,
                reduction == reduction_of_level(k as nat),
                current@ == mipmap.levels@[k - 1].data@,
                pyramid_prefix(mipmap.levels@, base@),
            invariant
                mipmap.sample_rate == sample_rate,
                mipmap.total_samples == total_frames,
                mipmap.channels == #[verifier::truncate] (channels as u8),
            ensures
                pyramid(mipmap.levels@, base@, NUM_LEVELS as nat),
            decreases NUM_LEVELS - k,
        {
            if current.len() < 2 {
                break;
            }
            let next = self.downsample_2x(current.as_slice());
            let next_copy = next.clone();
            mipmap.levels.push(MipmapLevel { reduction, data: next });
            current = next_copy;
            proof {
                lemma_reduction_step(k as nat);
            }
            reduction = reduction * 2;
            k = k + 1;
        }
        mipmap
    }
}

/// Reduction factor of level `i`: 64 times two to the `i`.
pub open spec fn reduction_of_level(i: nat) -> nat
    decreases i,
{
    if i == 0 { BASE_REDUCTION as nat } else { 2 * reduction_of_level((i - 1) as nat) }
}

proof fn lemma_reduction_step(k: nat)
    requires
        1 <= k < NUM_LEVELS,
    ensures
        reduction_of_level(k + 1) == 2 * reduction_of_level(k),
        reduction_of_level(k + 1) <= 262144,
    decreases k,
{
    reveal_with_fuel(reduction_of_level, 13);
}

/// The levels start with `base` at the base reduction, and each further level
/// halves the one before with double the reduction; each level that was
/// halved had at least two points.
pub open spec fn pyramid_prefix(levels: Seq<MipmapLevel>, base: Seq<WaveformPoint>) -> bool {
    &&& levels.len() >= 1
    &&& levels[0].reduction == BASE_REDUCTION
    &&& levels[0].data@ == base
    &&& forall|i: int| 1 <= i < levels.len() ==> {
        &&& (#[trigger] levels[i]).reduction == reduction_of_level(i as nat)
        &&& is_halved(levels[i - 1].data@, levels[i].data@)
        &&& levels[i - 1].data@.len() >= 2
    }
}

/// A complete mipmap over `base`: a pyramid that stopped at the level limit
/// or at a level of fewer than two points.
pub open spec fn pyramid(levels: Seq<MipmapLevel>, base: Seq<WaveformPoint>, limit: nat) -> bool {
    &&& pyramid_prefix(levels, base)
    &&& levels.len() <= limit
    &&& levels.len() == limit || levels.last().data@.len() < 2
}

impl Default for WaveformGenerator {
    fn default() -> (r: WaveformGenerator)
        ensures
            r.levels_limit() == NUM_LEVELS,
    {
        WaveformGenerator::new()
    }
}

/// Two to the `i`.
pub open spec fn two_pow(i: nat) -> nat
    decreases i,
{
    if i == 0 { 1 } else { 2 * two_pow((i - 1) as nat) }
}

/// In a mipmap built from `base`, level `i` holds the base points divided
/// by two to the `i` (rounded down) and covers 64 times two to the `i`
/// frames per point.
pub proof fn lemma_pyramid_level(levels: Seq<MipmapLevel>, base: Seq<WaveformPoint>, i: int)
    requires
        pyramid_prefix(levels, base),
        0 <= i < levels.len(),
    ensures
        levels[i].data@.len() == base.len() / two_pow(i as nat),
        levels[i].reduction == BASE_REDUCTION * two_pow(i as nat),
    decreases i,
{
    if i > 0 {
        lemma_pyramid_level(levels, base, i - 1);
        let prev = two_pow((i - 1) as nat);
        assert(two_pow(i as nat) == 2 * prev);
        assert(prev > 0) by {
            lemma_two_pow_positive((i - 1) as nat);
        }
        vstd::arithmetic::div_mod::lemma_div_denominator(base.len() as int, prev as int, 2);
        assert(prev * 2 == 2 * prev) by (nonlinear_arith);
        let li = levels[i];
        assert(is_halved(levels[i - 1].data@, li.data@));
        assert(li.data@.len() == levels[i - 1].data@.len() / 2);
        assert((base.len() as int / prev as int) / 2 == base.len() as int / (prev * 2) as int);
        assert(two_pow(i as nat) == prev * 2);
        assert(base.len() / two_pow(i as nat) == base.len() as int / (prev * 2) as int);
        assert(levels[i - 1].data@.len() == base.len() / prev);
        assert(li.data@.len() == (base.len() as int / prev as int) / 2);
        assert(levels[i].reduction == reduction_of_level(i as nat));
        assert(levels[i - 1].reduction == reduction_of_level((i - 1) as nat)) by {
            if i - 1 == 0 {
            } else {
                assert(levels[i - 1].reduction == reduction_of_level((i - 1) as nat));
            }
        }
        assert(BASE_REDUCTION * (2 * prev) == 2 * (BASE_REDUCTION * prev)) by (nonlinear_arith);
    } else {
        assert(two_pow(0) == 1);
        assert(levels[i].data@ == base);
        assert(base.len() / 1 == base.len());
    }
}

/// When every base point has its minimum at or below its maximum, so does
/// every point of every level built from it.
pub proof fn lemma_levels_keep_min_le_max(levels: Seq<MipmapLevel>, base: Seq<WaveformPoint>, i: int)
    requires
        pyramid_prefix(levels, base),
        0 <= i < levels.len(),
        forall|j: int| 0 <= j < base.len() ==> (#[trigger] base[j]).min <= base[j].max,
    ensures
        forall|j: int| 0 <= j < levels[i].data@.len() ==> (#[trigger] levels[i].data@[j]).min <= levels[i].data@[j].max,
    decreases i,
{
    if i > 0 {
        lemma_levels_keep_min_le_max(levels, base, i - 1);
        let prev = levels[i - 1].data@;
        let cur = levels[i].data@;
        assert(is_halved(prev, cur));
        assert forall|j: int| 0 <= j < cur.len() implies (#[trigger] cur[j]).min <= cur[j].max by {
            assert(combined(prev[2 * j], prev[2 * j + 1], cur[j]));
            assert(prev[2 * j].min <= prev[2 * j].max);
            assert(prev[2 * j + 1].min <= prev[2 * j + 1].max);
        }
    } else {
        assert(levels[0].data@ == base);
    }
}

/// Downsampling halves the point count (an odd last point is dropped) and
/// keeps the extremes of each pair: a combined point's minimum is the lower
/// of the two minima and its maximum the higher of the two maxima (each is
/// one of them); its RMS is the root mean square of the two RMS values,
/// rounded down, and lies between them.
pub proof fn lemma_halved_keeps_extremes(data: Seq<WaveformPoint>, out: Seq<WaveformPoint>, i: int)
    requires
        is_halved(data, out),
        0 <= i < out.len(),
    ensures
        out.len() == data.len() / 2,
        2 * i + 1 < data.len(),
        out[i].rms * out[i].rms <= (data[2 * i].rms * data[2 * i].rms + data[2 * i + 1].rms * data[2 * i + 1].rms) / 2,
        (data[2 * i].rms * data[2 * i].rms + data[2 * i + 1].rms * data[2 * i + 1].rms) / 2
            < (out[i].rms + 1) * (out[i].rms + 1),
        out[i].max >= data[2 * i].max,
        out[i].max >= data[2 * i + 1].max,
        out[i].max == data[2 * i].max || out[i].max == data[2 * i + 1].max,
        out[i].min <= data[2 * i].min,
        out[i].min <= data[2 * i + 1].min,
        out[i].min == data[2 * i].min || out[i].min == data[2 * i + 1].min,
        out[i].rms >= data[2 * i].rms || out[i].rms >= data[2 * i + 1].rms,
        out[i].rms <= data[2 * i].rms || out[i].rms <= data[2 * i + 1].rms,
{
    let a = data[2 * i];
    let b = data[2 * i + 1];
    let c = out[i];
    assert(combined(a, b, c));
    let r = c.rms as int;
    let x = a.rms as int;
    let y = b.rms as int;
    let mean = (x * x + y * y) / 2;
    assert(r * r <= mean < (r + 1) * (r + 1));
    if x <= y {
        assert(x <= r <= y) by (nonlinear_arith)
            requires
                0 <= x <= y,
                0 <= r,
                r * r <= (x * x + y * y) / 2,
                (x * x + y * y) / 2 < (r + 1) * (r + 1),
        ;
    } else {
        assert(y <= r <= x) by (nonlinear_arith)
            requires
                0 <= y <= x,
                0 <= r,
                r * r <= (x * x + y * y) / 2,
                (x * x + y * y) / 2 < (r + 1) * (r + 1),
        ;
    }
}

proof fn lemma_two_pow_positive(i: nat)
    ensures
        two_pow(i) > 0,
    decreases i,
{
    if i > 0 {
        lemma_two_pow_positive((i - 1) as nat);
    }
}

} // verus!
