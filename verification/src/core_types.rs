use vstd::prelude::*;

verus! {

/// A position in samples (absolute).
#[derive(Debug, Clone, Copy, PartialEq, Eq, PartialOrd, Ord, Hash, Structural)]
pub struct SamplePosition(pub u64);

impl SamplePosition {
    /// The origin, sample 0.
    pub fn zero() -> (r: SamplePosition)
        ensures
            r.0 == 0,
    {
        SamplePosition(0)
    }

    /// Advance by `rhs` samples.
    pub fn add(self, rhs: u64) -> (r: SamplePosition)
        requires
            self.0 + rhs <= u64::MAX,
        ensures
            r.0 == self.0 + rhs,
    {
        SamplePosition(self.0 + rhs)
    }

    /// Signed distance `self - rhs` in samples, each position taken as an
    /// `i64` (positions past `i64::MAX` wrap to negative values).
    pub fn sub(self, rhs: SamplePosition) -> (r: i64)
        requires
            i64::MIN <= (self.0 as i64) - (rhs.0 as i64) <= i64::MAX,
        ensures
            r == (self.0 as i64) - (rhs.0 as i64),
            self.0 <= i64::MAX && rhs.0 <= i64::MAX ==> r == self.0 - rhs.0,
    {
        (self.0 as i64) - (rhs.0 as i64)
    }
}

} // verus!

verus! {

/// Unique identifier for a track in the library.
#[derive(Debug, Clone, Copy, PartialEq, Eq, Hash, Structural)]
pub struct TrackId(pub u64);

/// Identifier of one of the four decks (0 to 3).
#[derive(Debug, Clone, Copy, PartialEq, Eq, Hash, Structural)]
pub struct DeckId(pub u8);

impl DeckId {
    /// Deck A, index 0.
    pub fn deck_a() -> (r: DeckId)
        ensures
            r.0 == 0,
    {
        DeckId(0)
    }

    /// Deck B, index 1.
    pub fn deck_b() -> (r: DeckId)
        ensures
            r.0 == 1,
    {
        DeckId(1)
    }

    /// Deck C, index 2.
    pub fn deck_c() -> (r: DeckId)
        ensures
            r.0 == 2,
    {
        DeckId(2)
    }

    /// Deck D, index 3.
    pub fn deck_d() -> (r: DeckId)
        ensures
            r.0 == 3,
    {
        DeckId(3)
    }
}

/// Audio format information.
#[derive(Debug, Clone, PartialEq, Eq, Structural)]
pub struct AudioFormat {
    pub sample_rate: u32,
    pub channels: u16,
    pub bits_per_sample: u16,
}

impl Default for AudioFormat {
    /// CD quality: 44.1 kHz, stereo, 16 bit.
    fn default() -> (r: AudioFormat)
        ensures
            r.sample_rate == 44100,
            r.channels == 2,
            r.bits_per_sample == 16,
    {
        AudioFormat { sample_rate: 44100, channels: 2, bits_per_sample: 16 }
    }
}

/// Playback state of a deck.
#[derive(Debug, Clone, Copy, PartialEq, Eq, Structural)]
pub enum PlaybackState {
    Stopped,
    Playing,
    Paused,
}

/// Quantization grid for starting deck playback, aligned to the global clock.
#[derive(Debug, Clone, Copy, PartialEq, Eq, Structural)]
pub enum Quantize {
    /// Start immediately, no quantization.
    Off,
    /// Snap the start to the next quarter-note beat.
    Beat,
    /// Snap the start to the next bar (4 beats).
    Bar,
}

/// Number of beats in a quantization grid (0 when off).
pub open spec fn quantize_beats(q: Quantize) -> nat {
    match q {
        Quantize::Off => 0,
        Quantize::Beat => 1,
        Quantize::Bar => 4,
    }
}

impl Quantize {
    /// Number of beats in this quantization grid (0 when off). The grid is
    /// always a whole number of beats.
    pub fn beats(self) -> (r: u32)
        ensures
            r == quantize_beats(self),
    {
        match self {
            Quantize::Off => 0,
            Quantize::Beat => 1,
            Quantize::Bar => 4,
        }
    }
}

/// Beats of the grid a cue jump of a playing deck waits for: one beat when
/// quantizing to beats, otherwise a bar.
pub open spec fn cue_grid_beats_spec(q: Quantize) -> nat {
    match q {
        Quantize::Beat => 1,
        _ => 4,
    }
}

impl Quantize {
    /// Beats of the grid a cue jump of a playing deck waits for: a beat
    /// under `Beat`, a bar under `Bar` and also when quantization is off.
    pub fn cue_grid_beats(self) -> (r: u32)
        ensures
            r == cue_grid_beats_spec(self),
    {
        match self {
            Quantize::Beat => 1,
            _ => 4,
        }
    }

    /// The grid named in the UI: "beat", "bar", anything else off.
    pub fn from_name(name: &str) -> (r: Quantize)
        ensures
            r == (if name@ == "beat"@ {
                Quantize::Beat
            } else if name@ == "bar"@ {
                Quantize::Bar
            } else {
                Quantize::Off
            }),
    {
        if str_equal(name, "beat") {
            Quantize::Beat
        } else if str_equal(name, "bar") {
            Quantize::Bar
        } else {
            Quantize::Off
        }
    }
}

/// Whether two texts are equal, character by character.
pub fn str_equal(a: &str, b: &str) -> (r: bool)
    ensures
        r == (a@ == b@),
{
    let n = a.unicode_len();
    let m = b.unicode_len();
    if n != m {
        return false;
    }
    let mut i: usize = 0;
    while i < n
        invariant
            n == a@.len(),
            m == b@.len(),
            n == m,
            i <= n,
            forall|j: int| 0 <= j < i ==> a@[j] == b@[j],
        decreases n - i,
    {
        if a.get_char(i) != b.get_char(i) {
            return false;
        }
        i = i + 1;
    }
    assert(a@ =~= b@);
    true
}

/// Sync mode for a deck.
#[derive(Debug, Clone, Copy, PartialEq, Eq, Structural)]
pub enum SyncMode {
    /// Free play - no synchronization.
    Off,
    /// Match tempo only.
    Tempo,
    /// Match tempo and phase-lock to beats.
    Phase,
}

impl SyncMode {
    /// The mode named in the UI: "tempo", "phase", anything else off.
    pub fn from_name(name: &str) -> (r: SyncMode)
        ensures
            r == (if name@ == "tempo"@ {
                SyncMode::Tempo
            } else if name@ == "phase"@ {
                SyncMode::Phase
            } else {
                SyncMode::Off
            }),
    {
        if str_equal(name, "tempo") {
            SyncMode::Tempo
        } else if str_equal(name, "phase") {
            SyncMode::Phase
        } else {
            SyncMode::Off
        }
    }
}

/// Crossfader assignment for a channel.
#[derive(Debug, Clone, Copy, PartialEq, Eq, Structural)]
pub enum CrossfaderAssign {
    /// Assigned to side A (left).
    A,
    /// Assigned to side B (right).
    B,
    /// Bypasses the crossfader entirely.
    Thru,
}

/// Crossfader curve type.
#[derive(Debug, Clone, Copy, PartialEq, Eq, Structural)]
pub enum CrossfaderCurve {
    /// Linear: -3dB at center.
    Linear,
    /// Constant power: 0dB at center.
    ConstantPower,
    /// Sharp cut for scratching.
    Scratch,
    /// Smooth S-curve for mixing.
    Transition,
}

#[verifier::external_type_specification]
#[verifier::external_body]
pub struct ExIoError(std::io::Error);

#[verifier::external_type_specification]
#[verifier::external_body]
pub struct ExPathBuf(std::path::PathBuf);

/// The path `Path::join` gives for `dir` joined with the relative name
/// `name`; it depends on its arguments alone.
pub uninterp spec fn path_joined(dir: std::path::PathBuf, name: Seq<char>) -> std::path::PathBuf;

/// A plain file name: it starts with an ASCII letter or digit and holds
/// only ASCII letters, digits and dots (no separator, drive or root, and
/// neither `.` nor `..`).
pub open spec fn plain_file_name(s: Seq<char>) -> bool {
    &&& s.len() > 0
    &&& is_ascii_alnum(s[0])
    &&& forall|i: int| 0 <= i < s.len() ==> is_ascii_alnum(#[trigger] s[i]) || s[i] == '.'
}

/// Whether `c` is an ASCII letter or digit.
pub open spec fn is_ascii_alnum(c: char) -> bool {
    ('a' <= c && c <= 'z') || ('A' <= c && c <= 'Z') || ('0' <= c && c <= '9')
}

/// `dir` joined with the relative file name `name` (`Path::join`): the
/// result is the join of exactly these arguments, named `path_joined`.
/// A relative name is appended to `dir` after a separator that depends on
/// `dir` alone (`PathBuf::push`), so two different plain file names joined
/// to one directory give two different paths.
#[verifier::external_body]
pub(crate) fn join_path(dir: &std::path::PathBuf, name: &str) -> (r: std::path::PathBuf)
    ensures
        r == path_joined(*dir, name@),
        plain_file_name(name@) ==> forall|other: Seq<char>|
            #![trigger path_joined(*dir, other)]
            plain_file_name(other) && other != name@ ==> path_joined(*dir, other) != r,
{
    dir.join(name)
}

/// The path `PathBuf::from` gives for `text`; it depends on the text alone.
pub uninterp spec fn path_from_text(text: Seq<char>) -> std::path::PathBuf;

/// The path of `text` (`PathBuf::from`): named `path_from_text`.
#[verifier::external_body]
pub(crate) fn path_from(text: &str) -> (r: std::path::PathBuf)
    ensures
        r == path_from_text(text@),
{
    std::path::PathBuf::from(text)
}

/// `PathBuf::clone`: a copy of the path. A `PathBuf` has no model here, so
/// nothing is stated of the copy.
pub assume_specification[ <std::path::PathBuf as Clone>::clone ](p: &std::path::PathBuf) -> std::path::PathBuf;

/// Errors of the application.
#[derive(Debug)]
pub enum RecordPlayerError {
    /// Audio device error.
    AudioDevice(String),
    /// File not found.
    FileNotFound(String),
    /// Unsupported format.
    UnsupportedFormat(String),
    /// Decoding error.
    Decoding(String),
    /// Plugin error.
    Plugin(String),
    /// Database error.
    Database(String),
    /// IO error.
    Io(std::io::Error),
}

/// Result type of the application.
pub type Result<T> = std::result::Result<T, RecordPlayerError>;

} // verus!
