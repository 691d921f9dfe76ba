//! Geometry of waveform display: which source frames each pixel column of
//! a drawn range covers.

use vstd::prelude::*;

verus! {

/// Most pixel columns a range is drawn over.
pub const MAX_PIXELS: u32 = 8000;

/// The drawn range clipped to the track and the column count clamped:
/// `start` clipped to `[0, total_frames]`, `end` to `[start, total_frames]`,
/// and `pixels` to `[1, 8000]`.
pub open spec fn clipped_range(total_frames: usize, start: u64, end: u64, pixels: u32) -> (usize, usize, usize) {
    let s: usize = if (start as usize) < total_frames { start as usize } else { total_frames };
    let e: usize = if (end as usize) < s { s } else if (end as usize) > total_frames { total_frames } else { end as usize };
    let p: usize = if pixels < 1 { 1 } else if pixels > MAX_PIXELS { MAX_PIXELS as usize } else { pixels as usize };
    (s, e, p)
}

/// Clips a drawn range `[start, end)` to a track of `total_frames` frames
/// and clamps the column count.
pub fn clip_range(total_frames: usize, start: u64, end: u64, pixels: u32) -> (r: (usize, usize, usize))
    ensures
        r == clipped_range(total_frames, start, end, pixels),
        r.0 <= r.1 <= total_frames,
        1 <= r.2 <= MAX_PIXELS,
{
    let s_raw = start as usize;
    let s = if s_raw < total_frames { s_raw } else { total_frames };
    let e_raw = end as usize;
    let e = if e_raw < s { s } else if e_raw > total_frames { total_frames } else { e_raw };
    let p = if pixels < 1 { 1 } else if pixels > MAX_PIXELS { MAX_PIXELS as usize } else { pixels as usize };
    (s, e, p)
}

/// The number of columns depends on `pixels` alone: it is `pixels` kept
/// within 1 and 8000, whatever the track and the drawn range, even when it
/// exceeds the frames drawn (each column then covers at least one frame).
/// The range starts at `start` or at the track's end, whichever is first,
/// and ends at `end` kept within that start and the track's end.
pub proof fn lemma_clipped_range_parts(total_frames: usize, start: u64, end: u64, pixels: u32, other_total: usize, other_start: u64, other_end: u64)
    ensures
        clipped_range(total_frames, start, end, pixels).2
            == (if pixels == 0 { 1 } else if pixels > 8000 { 8000 } else { pixels as int }),
        clipped_range(total_frames, start, end, pixels).2 == clipped_range(other_total, other_start, other_end, pixels).2,
        clipped_range(total_frames, start, end, pixels).0
            == (if (start as usize) <= total_frames { start as usize } else { total_frames }),
        clipped_range(total_frames, start, end, pixels).1 == (
            if (end as usize) > total_frames { total_frames }
            else if (end as usize) < clipped_range(total_frames, start, end, pixels).0 { clipped_range(total_frames, start, end, pixels).0 }
            else { end as usize }),
{
}

/// Frames covered by column `p` of `pixels` columns over `[start, end)`:
/// from `start + p * span / pixels` to `start + (p + 1) * span / pixels`,
/// widened to one frame (within `end`) when that is empty; `step` is the
/// stride that reads at most `max_reads` frames of the column, at least 1.
pub open spec fn column_bounds(start: nat, end: nat, pixels: nat, p: nat, max_reads: nat) -> (nat, nat, nat) {
    let span = (end - start) as nat;
    let b0 = start + p * span / pixels;
    let b1_raw = start + (p + 1) * span / pixels;
    let b1 = if b1_raw <= b0 { if b0 + 1 <= end { b0 + 1 } else { end } } else { b1_raw };
    let step = if (b1 - b0) / (max_reads as int) >= 1 { ((b1 - b0) / (max_reads as int)) as nat } else { 1 };
    (b0, b1 as nat, step)
}

/// Frames read for pixel column `p`: `(first, end, step)`.
pub fn column_frames(start: usize, end: usize, pixels: usize, p: usize, max_reads: usize) -> (r: (usize, usize, usize))
    requires
        start < end,
        p < pixels,
        max_reads > 0,
        pixels * (end - start) <= usize::MAX,
    ensures
        (r.0 as nat, r.1 as nat, r.2 as nat) == column_bounds(start as nat, end as nat, pixels as nat, p as nat, max_reads as nat),
        start <= r.0 < r.1 <= end,
        r.2 >= 1,
{
    let span = end - start;
    proof {
        let (pi, si, ni) = (p as int, span as int, pixels as int);
        assert(pi * si <= (pi + 1) * si <= ni * si) by (nonlinear_arith)
            requires
                pi < ni,
                si >= 0,
        ;
        assert((pi * si) / ni <= ((pi + 1) * si) / ni <= si) by (nonlinear_arith)
            requires
                0 <= pi < ni,
                si >= 0,
        ;
        assert(si > 0 ==> (pi * si) / ni < si) by (nonlinear_arith)
            requires
                0 <= pi < ni,
                si >= 0,
        ;
    }
    let b0 = start + (p * span) / pixels;
    let b1_raw = start + ((p + 1) * span) / pixels;
    let b1 = if b1_raw <= b0 { if b0 + 1 <= end { b0 + 1 } else { end } } else { b1_raw };
    let q = (b1 - b0) / max_reads;
    let step = if q >= 1 { q } else { 1 };
    (b0, b1, step)
}

/// Columns cover the drawn range in order: each column begins where the
/// previous one would end before widening.
pub proof fn lemma_columns_adjacent(start: nat, end: nat, pixels: nat, p: nat, max_reads: nat)
    requires
        start <= end,
        p + 1 < pixels,
        max_reads > 0,
    ensures
        column_bounds(start, end, pixels, p + 1, max_reads).0
            == start + (p + 1) * ((end - start) as nat) / pixels,
        column_bounds(start, end, pixels, (pixels - 1) as nat, max_reads).1 == end || start == end,
{
    let span = (end - start) as int;
    let n = pixels as int;
    assert((n * span) / n == span) by (nonlinear_arith)
        requires
            n > 0,
    ;
    assert(((n - 1) + 1) * span == n * span) by (nonlinear_arith);
}

/// Offset in a block of `frames` frames starting at `block_start` at which
/// something scheduled at sample `at` happens: `None` when it falls after
/// the block, 0 when it is due already.
pub open spec fn offset_in_block(at: u64, block_start: u64, frames: nat) -> Option<nat> {
    if at >= block_start + frames {
        None
    } else if at <= block_start {
        Some(0)
    } else {
        Some((at - block_start) as nat)
    }
}

/// Where in the block `[block_start, block_start + frames)` an event
/// scheduled for sample `at` falls.
pub fn event_offset(at: u64, block_start: u64, frames: usize) -> (r: Option<usize>)
    requires
        block_start + frames <= u64::MAX,
    ensures
        match r {
            Some(k) => offset_in_block(at, block_start, frames as nat) == Some(k as nat) && k <= frames,
            None => offset_in_block(at, block_start, frames as nat) is None,
        },
{
    let block_end = block_start + frames as u64;
    if at >= block_end {
        None
    } else if at <= block_start {
        Some(0)
    } else {
        let d = at - block_start;
        assert(d < frames);
        Some(d as usize)
    }
}

} // verus!
