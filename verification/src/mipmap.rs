//! Multi-resolution waveform data for display at any zoom.

use vstd::prelude::*;

verus! {

/// A single point of the waveform display: the extremes and the loudness of
/// a run of samples, scaled to 16-bit integers.
#[derive(Debug, Clone, Copy)]
pub struct WaveformPoint {
    /// Minimum sample value in this range (scaled to i16).
    pub min: i16,
    /// Maximum sample value in this range.
    pub max: i16,
    /// RMS value for visual intensity.
    pub rms: u16,
}

/// A single mipmap level holding downsampled waveform data.
#[derive(Debug, Clone)]
pub struct MipmapLevel {
    /// Reduction factor: source samples per point.
    pub reduction: u32,
    /// Waveform data for this level.
    pub data: Vec<WaveformPoint>,
}

impl MipmapLevel {
    /// An empty level with the given reduction factor.
    pub fn new(reduction: u32) -> (r: MipmapLevel)
        ensures
            r.reduction == reduction,
            r.data@.len() == 0,
    {
        MipmapLevel { reduction, data: Vec::new() }
    }

    /// Number of points in this level.
    pub fn len(&self) -> (r: usize)
        ensures
            r == self.data@.len(),
    {
        self.data.len()
    }

    /// Whether the level holds no point.
    pub fn is_empty(&self) -> (r: bool)
        ensures
            r == (self.data@.len() == 0),
    {
        self.data.len() == 0
    }
}

/// Complete waveform mipmap with multiple resolution levels.
#[derive(Debug, Clone)]
pub struct WaveformMipmap {
    /// Sample rate of the analysed audio.
    pub sample_rate: u32,
    /// Total samples in the analysed audio.
    pub total_samples: u64,
    /// Number of channels.
    pub channels: u8,
    /// Mipmap levels, from highest to lowest resolution.
    pub levels: Vec<MipmapLevel>,
}

/// Index of the last level, among the first `n`, whose reduction is at most
/// `m`.
pub open spec fn last_level_within(levels: Seq<MipmapLevel>, m: int, n: int) -> Option<int>
    decreases n,
{
    if n <= 0 {
        None
    } else if levels[n - 1].reduction <= m {
        Some(n - 1)
    } else {
        last_level_within(levels, m, n - 1)
    }
}

/// The level chosen for `target` samples per pixel: the coarsest level that
/// is still at least as fine as the target (a target below 1 counts as 1);
/// the finest level when none is; none when there are no levels.
pub open spec fn zoom_level_index(levels: Seq<MipmapLevel>, target: u32) -> Option<int> {
    let m: int = if target < 1 { 1 } else { target as int };
    match last_level_within(levels, m, levels.len() as int) {
        Some(i) => Some(i),
        None => if levels.len() > 0 { Some(0) } else { None },
    }
}

/// Whole samples per pixel for `range` samples over `pixels` pixels, as the
/// display computes it: the quotient rounded down and capped at `u32::MAX`
/// (capped as well when `pixels` is 0 and `range` is not).
pub open spec fn zoom_target(range: u64, pixels: u32) -> u32 {
    if pixels == 0 {
        if range == 0 { 0 } else { u32::MAX }
    } else if range / (pixels as u64) > u32::MAX as u64 {
        u32::MAX
    } else {
        (range / (pixels as u64)) as u32
    }
}

/// `a - b`, or 0 when `b` exceeds `a`.
pub open spec fn sat_sub(a: u64, b: u64) -> u64 {
    if a >= b { (a - b) as u64 } else { 0 }
}

impl WaveformMipmap {
    /// The level that `get_visible_range` reads from.
    pub open spec fn visible_level(&self, start_sample: u64, end_sample: u64, target_pixels: u32) -> Option<int> {
        zoom_level_index(self.levels@, zoom_target(sat_sub(end_sample, start_sample), target_pixels))
    }

    /// Whether `get_visible_range` is defined on these arguments: the level
    /// it reads has a nonzero reduction, and the first index it reads is not
    /// past the last one while still inside the level.
    pub open spec fn visible_range_defined(&self, start_sample: u64, end_sample: u64, target_pixels: u32) -> bool {
        match self.visible_level(start_sample, end_sample, target_pixels) {
            None => true,
            Some(i) => {
                let level = self.levels@[i];
                let len = level.data@.len() as int;
                let start_idx = (start_sample / (level.reduction as u64)) as usize as int;
                let end_idx = (end_sample / (level.reduction as u64)) as usize as int;
                &&& level.reduction > 0
                &&& start_idx < len ==> start_idx <= (if end_idx < len { end_idx } else { len })
            },
        }
    }

    /// The points `get_visible_range` returns: those of the chosen level
    /// from `start_sample / reduction` up to `end_sample / reduction`
    /// (clipped to the level); nothing when there is no level or the start
    /// lies past its end.
    pub open spec fn visible_range(&self, start_sample: u64, end_sample: u64, target_pixels: u32) -> Seq<WaveformPoint> {
        match self.visible_level(start_sample, end_sample, target_pixels) {
            None => Seq::empty(),
            Some(i) => {
                let level = self.levels@[i];
                let len = level.data@.len() as int;
                let start_idx = (start_sample / (level.reduction as u64)) as usize as int;
                let end_idx = (end_sample / (level.reduction as u64)) as usize as int;
                if start_idx >= len {
                    Seq::empty()
                } else {
                    level.data@.subrange(start_idx, if end_idx < len { end_idx } else { len })
                }
            },
        }
    }

    /// An empty mipmap with the given audio properties.
    pub fn new(sample_rate: u32, total_samples: u64, channels: u8) -> (r: WaveformMipmap)
        ensures
            r.sample_rate == sample_rate,
            r.total_samples == total_samples,
            r.channels == channels,
            r.levels@.len() == 0,
    {
        WaveformMipmap { sample_rate, total_samples, channels, levels: Vec::new() }
    }

    /// Selects the level for a zoom of `target_reduction` whole samples per
    /// pixel: the level with the highest reduction that is still at most the
    /// target (at least 1), else the first level.
    pub fn get_level_for_zoom(&self, target_reduction: u32) -> (r: Option<&MipmapLevel>)
        ensures
            match zoom_level_index(self.levels@, target_reduction) {
                Some(i) => r == Some(&self.levels@[i]),
                None => r is None,
            },
    {
        let m: u32 = if target_reduction < 1 { 1 } else { target_reduction };
        let mut n = self.levels.len();
        while n > 0
            invariant
                n <= self.levels@.len(),
                m == (if target_reduction < 1 { 1 } else { target_reduction }),
                last_level_within(self.levels@, m as int, self.levels@.len() as int)
                    == last_level_within(self.levels@, m as int, n as int),
            decreases n,
        {
            if self.levels[n - 1].reduction <= m {
                return Some(&self.levels[n - 1]);
            }
            n = n - 1;
        }
        if self.levels.len() > 0 {
            Some(&self.levels[0])
        } else {
            None
        }
    }

    /// Waveform points for the visible range `[start_sample, end_sample)`
    /// drawn over `target_pixels` pixels, at the matching level of detail.
    pub fn get_visible_range(&self, start_sample: u64, end_sample: u64, target_pixels: u32) -> (r: Vec<WaveformPoint>)
        requires
            self.visible_range_defined(start_sample, end_sample, target_pixels),
        ensures
            r@ == self.visible_range(start_sample, end_sample, target_pixels),
    {
        let range_samples = end_sample.saturating_sub(start_sample);
        let target: u32 = if target_pixels == 0 {
            if range_samples == 0 { 0 } else { u32::MAX }
        } else if range_samples / (target_pixels as u64) > u32::MAX as u64 {
            u32::MAX
        } else {
            (range_samples / (target_pixels as u64)) as u32
        };
        let level = match self.get_level_for_zoom(target) {
            Some(level) => level,
            None => return Vec::new(),
        };
        let start_idx = (start_sample / level.reduction as u64) as usize;
        let end_raw = (end_sample / level.reduction as u64) as usize;
        let len = level.data.len();
        let end_idx = if end_raw < len { end_raw } else { len };
        if start_idx >= len {
            return Vec::new();
        }
        let mut out: Vec<WaveformPoint> = Vec::with_capacity(end_idx - start_idx);
        let mut k = start_idx;
        while k < end_idx
            invariant
                start_idx <= k <= end_idx <= level.data@.len(),
                out@ == level.data@.subrange(start_idx as int, k as int),
            decreases end_idx - k,
        {
            out.push(level.data[k]);
            assert(out@ =~= level.data@.subrange(start_idx as int, k + 1));
            k = k + 1;
        }
        out
    }
}

proof fn lemma_last_level_within(levels: Seq<MipmapLevel>, m: int, n: int)
    requires
        0 <= n <= levels.len(),
    ensures
        match last_level_within(levels, m, n) {
            Some(i) => 0 <= i < n && levels[i].reduction <= m
                && forall|j: int| i < j < n ==> #[trigger] levels[j].reduction > m,
            None => forall|j: int| 0 <= j < n ==> #[trigger] levels[j].reduction > m,
        },
    decreases n,
{
    if n > 0 {
        lemma_last_level_within(levels, m, n - 1);
    }
}

/// The level chosen for a zoom is the last one whose reduction does not
/// exceed the target (at least 1): every later level is coarser than the
/// target. When every level is coarser, the first level is chosen.
pub proof fn lemma_zoom_level_choice(levels: Seq<MipmapLevel>, target: u32)
    ensures
        match zoom_level_index(levels, target) {
            Some(i) => 0 <= i < levels.len() && (
                (levels[i].reduction <= (if target < 1 { 1 } else { target })
                    && forall|j: int| i < j < levels.len() ==> #[trigger] levels[j].reduction > (if target < 1 { 1 } else { target }))
                || (i == 0 && forall|j: int| 0 <= j < levels.len() ==> #[trigger] levels[j].reduction > (if target < 1 { 1 } else { target }))),
            None => levels.len() == 0,
        },
{
    let m: int = if target < 1 { 1 } else { target as int };
    lemma_last_level_within(levels, m, levels.len() as int);
}

/// The level a visible range is read from depends on the range's width
/// alone: it is the level for the whole samples per pixel of that width,
/// `(end_sample - start_sample) / target_pixels`, so the same width over
/// the same pixels reads the same level anywhere in the track.
pub proof fn lemma_visible_level_follows_width(m: WaveformMipmap, start_sample: u64, end_sample: u64, target_pixels: u32, shift: u64)
    requires
        start_sample <= end_sample,
        target_pixels > 0,
        (end_sample - start_sample) / (target_pixels as int) <= u32::MAX,
        end_sample + shift <= u64::MAX,
    ensures
        m.visible_level(start_sample, end_sample, target_pixels)
            == zoom_level_index(m.levels@, ((end_sample - start_sample) / (target_pixels as int)) as u32),
        m.visible_level((start_sample + shift) as u64, (end_sample + shift) as u64, target_pixels)
            == m.visible_level(start_sample, end_sample, target_pixels),
{
}

/// A range that ends before it starts is drawn at the finest zoom: it
/// reads the level for at most one sample per pixel.
pub proof fn lemma_visible_level_of_empty_range(m: WaveformMipmap, start_sample: u64, end_sample: u64, target_pixels: u32)
    requires
        end_sample <= start_sample,
    ensures
        m.visible_level(start_sample, end_sample, target_pixels) == zoom_level_index(m.levels@, 0),
{
}

/// Whether point `j` of a level of reduction `red` spans sample `x`:
/// `red * j <= x < red * (j + 1)`.
pub open spec fn span_holds(red: int, j: int, x: int) -> bool {
    red * j <= x && x < red * (j + 1)
}

/// The points of a visible range are consecutive points of the chosen
/// level: from the point whose span of `reduction` samples holds
/// `start_sample` up to, not including, the point whose span holds
/// `end_sample` (or the level's end); none when the start lies past the
/// level.
pub proof fn lemma_visible_points(m: WaveformMipmap, start_sample: u64, end_sample: u64, target_pixels: u32, i: int)
    requires
        m.visible_range_defined(start_sample, end_sample, target_pixels),
        m.visible_level(start_sample, end_sample, target_pixels) == Some(i),
        start_sample <= usize::MAX,
        end_sample <= usize::MAX,
    ensures
        exists|first: int, last: int|
            #![trigger span_holds(m.levels@[i].reduction as int, first, start_sample as int), span_holds(m.levels@[i].reduction as int, last, end_sample as int)]
        {
            let data = m.levels@[i].data@;
            &&& span_holds(m.levels@[i].reduction as int, first, start_sample as int)
            &&& span_holds(m.levels@[i].reduction as int, last, end_sample as int)
            &&& m.visible_range(start_sample, end_sample, target_pixels) == (if first >= data.len() {
                Seq::empty()
            } else {
                data.subrange(first, if last < data.len() { last } else { data.len() as int })
            })
        },
{
    let level = m.levels@[i];
    let red = level.reduction as int;
    let first = (start_sample / (level.reduction as u64)) as int;
    let last = (end_sample / (level.reduction as u64)) as int;
    let s = start_sample as int;
    let e = end_sample as int;
    assert(red > 0);
    assert(first == s / red);
    assert(last == e / red);
    assert(red * first <= s < red * (first + 1)) by (nonlinear_arith)
        requires
            red > 0,
            first == s / red,
    ;
    assert(red * last <= e < red * (last + 1)) by (nonlinear_arith)
        requires
            red > 0,
            last == e / red,
    ;
    assert(first <= s) by (nonlinear_arith)
        requires
            red > 0,
            first == s / red,
            s >= 0,
    ;
    assert(last <= e) by (nonlinear_arith)
        requires
            red > 0,
            last == e / red,
            e >= 0,
    ;
    assert((start_sample / (level.reduction as u64)) as usize as int == first);
    assert((end_sample / (level.reduction as u64)) as usize as int == last);
    assert(span_holds(red, first, s));
    assert(span_holds(red, last, e));
}

} // verus!
