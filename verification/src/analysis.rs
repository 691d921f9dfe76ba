//! Track analysis: the analysers' configuration and the choice of the part
//! of a track that tempo detection reads.

use vstd::prelude::*;

verus! {

/// Analysis frame length in samples.
pub const WINDOW: usize = 1024;
/// Hop between analysis frames in samples.
pub const HOP: usize = 512;

/// Analyzes audio to generate beatgrids.
pub struct BeatGridAnalyzer {
    sample_rate: u32,
}

impl BeatGridAnalyzer {
    /// The sample rate of the audio analysed.
    pub closed spec fn rate(&self) -> u32 {
        self.sample_rate
    }

    /// An analyser for audio at `sample_rate`.
    pub fn new(sample_rate: u32) -> (r: BeatGridAnalyzer)
        ensures
            r.rate() == sample_rate,
    {
        BeatGridAnalyzer { sample_rate }
    }

    /// The sample rate of the audio analysed.
    pub fn sample_rate(&self) -> (r: u32)
        ensures
            r == self.rate(),
    {
        self.sample_rate
    }
}

/// Detects the tempo of PCM audio.
pub struct BpmDetector {
    sample_rate: u32,
}

impl BpmDetector {
    /// The sample rate of the audio analysed.
    pub closed spec fn rate(&self) -> u32 {
        self.sample_rate
    }

    /// A detector for audio at `sample_rate`.
    pub fn new(sample_rate: u32) -> (r: BpmDetector)
        ensures
            r.rate() == sample_rate,
    {
        BpmDetector { sample_rate }
    }

    /// The sample rate of the audio analysed.
    pub fn sample_rate(&self) -> (r: u32)
        ensures
            r == self.rate(),
    {
        self.sample_rate
    }
}

/// The frames `[start, end)` that tempo detection reads from a track of
/// `total_frames` frames: on a track shorter than the analysis window
/// (150 s) plus the skipped lead-in (30 s), the whole track; otherwise the
/// window that starts after the lead-in, clipped to the track. The window
/// never reaches past the track: a short track is not padded out to one
/// analysis frame and hop (1536 frames), since reading past its end would
/// fail where detection is meant to report no tempo for too short or
/// silent input.
pub open spec fn analysis_window_spec(total_frames: nat, sample_rate: nat) -> (nat, nat) {
    let target: nat = 150 * sample_rate;
    let skip: nat = 30 * sample_rate;
    if total_frames < target + skip {
        (0, total_frames)
    } else {
        (skip, if skip + target <= total_frames { (skip + target) as nat } else { total_frames })
    }
}

/// The frames that tempo detection reads from a track of `total_frames`
/// frames at `sample_rate`.
pub fn analysis_window(total_frames: usize, sample_rate: u32) -> (r: (usize, usize))
    requires
        180 * sample_rate <= usize::MAX,
    ensures
        (r.0 as nat, r.1 as nat) == analysis_window_spec(total_frames as nat, sample_rate as nat),
        r.0 <= r.1 <= total_frames,
{
    let sr = sample_rate as usize;
    let target = 150 * sr;
    let skip = 30 * sr;
    if total_frames < target + skip {
        (0, total_frames)
    } else {
        let end = if skip + target <= total_frames { skip + target } else { total_frames };
        (skip, end)
    }
}

/// A track shorter than 180 s (the 150 s window plus the 30 s lead-in) is
/// analysed whole, from its first frame; a longer one is analysed from
/// 30 s to 180 s.
pub proof fn lemma_analysis_window_by_length(total_frames: nat, sample_rate: nat)
    ensures
        total_frames < 180 * sample_rate ==> analysis_window_spec(total_frames, sample_rate) == (0nat, total_frames),
        total_frames >= 180 * sample_rate
            ==> analysis_window_spec(total_frames, sample_rate) == (30 * sample_rate, 180 * sample_rate),
{
}

} // verus!
