//! Global transport clock shared by all decks for sample-accurate sync.

use vstd::prelude::*;

verus! {

/// Default tempo, 120 BPM, in thousandths of a beat per minute.
pub const DEFAULT_TEMPO_SCALED: u32 = 120_000;

/// Global transport clock. The tempo is held in thousandths of a BPM so that
/// the clock needs no floating point.
pub struct GlobalTransport {
    /// Master clock position in samples (increasing while playing).
    sample_position: u64,
    /// Tempo in BPM * 1000.
    tempo_bpm_scaled: u32,
    /// Sample rate (set once the real output device rate is known).
    sample_rate: u32,
    /// Whether the transport is playing.
    is_playing: bool,
}

impl GlobalTransport {
    /// Clock position in samples.
    pub closed spec fn position(&self) -> u64 {
        self.sample_position
    }

    /// Tempo in thousandths of a BPM.
    pub closed spec fn tempo_scaled(&self) -> u32 {
        self.tempo_bpm_scaled
    }

    /// Sample rate in Hz.
    pub closed spec fn rate(&self) -> u32 {
        self.sample_rate
    }

    /// Whether the clock runs.
    pub closed spec fn playing(&self) -> bool {
        self.is_playing
    }

    /// A stopped clock at sample 0, 120 BPM, at `sample_rate`.
    pub fn new(sample_rate: u32) -> (r: GlobalTransport)
        ensures
            r.position() == 0,
            r.tempo_scaled() == DEFAULT_TEMPO_SCALED,
            r.rate() == sample_rate,
            !r.playing(),
    {
        GlobalTransport {
            sample_position: 0,
            tempo_bpm_scaled: DEFAULT_TEMPO_SCALED,
            sample_rate,
            is_playing: false,
        }
    }

    /// The current sample position.
    pub fn sample_position(&self) -> (r: u64)
        ensures
            r == self.position(),
    {
        self.sample_position
    }

    /// Sets the sample position (for seeking).
    pub fn set_sample_position(&mut self, position: u64)
        ensures
            final(self).position() == position,
            final(self).tempo_scaled() == old(self).tempo_scaled(),
            final(self).rate() == old(self).rate(),
            final(self).playing() == old(self).playing(),
    {
        self.sample_position = position;
    }

    /// Advances the clock by `samples`, wrapping around at `u64::MAX`.
    pub fn advance(&mut self, samples: u64)
        ensures
            final(self).position() == (old(self).position() + samples) % 0x1_0000_0000_0000_0000,
            final(self).tempo_scaled() == old(self).tempo_scaled(),
            final(self).rate() == old(self).rate(),
            final(self).playing() == old(self).playing(),
    {
        self.sample_position = self.sample_position.wrapping_add(samples);
    }

    /// Tempo in thousandths of a BPM.
    pub fn tempo_bpm_scaled(&self) -> (r: u32)
        ensures
            r == self.tempo_scaled(),
    {
        self.tempo_bpm_scaled
    }

    /// Sets the tempo in thousandths of a BPM.
    pub fn set_tempo_bpm_scaled(&mut self, scaled: u32)
        ensures
            final(self).tempo_scaled() == scaled,
            final(self).position() == old(self).position(),
            final(self).rate() == old(self).rate(),
            final(self).playing() == old(self).playing(),
    {
        self.tempo_bpm_scaled = scaled;
    }

    /// The sample rate.
    pub fn sample_rate(&self) -> (r: u32)
        ensures
            r == self.rate(),
    {
        self.sample_rate
    }

    /// Sets the sample rate (once the real output device rate is known).
    pub fn set_sample_rate(&mut self, sample_rate: u32)
        ensures
            final(self).rate() == sample_rate,
            final(self).position() == old(self).position(),
            final(self).tempo_scaled() == old(self).tempo_scaled(),
            final(self).playing() == old(self).playing(),
    {
        self.sample_rate = sample_rate;
    }

    /// Whether the transport is playing.
    pub fn is_playing(&self) -> (r: bool)
        ensures
            r == self.playing(),
    {
        self.is_playing
    }

    /// Starts playback.
    pub fn play(&mut self)
        ensures
            final(self).playing(),
            final(self).position() == old(self).position(),
            final(self).tempo_scaled() == old(self).tempo_scaled(),
            final(self).rate() == old(self).rate(),
    {
        self.is_playing = true;
    }

    /// Stops playback; the position is kept.
    pub fn stop(&mut self)
        ensures
            !final(self).playing(),
            final(self).position() == old(self).position(),
            final(self).tempo_scaled() == old(self).tempo_scaled(),
            final(self).rate() == old(self).rate(),
    {
        self.is_playing = false;
    }
}

/// Advancing the clock by `a` and then by `b` lands where advancing by
/// `a + b` would, modulo the 64-bit wrap.
pub proof fn lemma_advance_composes(t0: GlobalTransport, t1: GlobalTransport, t2: GlobalTransport, a: u64, b: u64)
    requires
        t1.position() == (t0.position() + a) % 0x1_0000_0000_0000_0000,
        t2.position() == (t1.position() + b) % 0x1_0000_0000_0000_0000,
    ensures
        t2.position() == (t0.position() + a + b) % 0x1_0000_0000_0000_0000,
{
    let m: int = 0x1_0000_0000_0000_0000;
    let x = t0.position() + a;
    vstd::arithmetic::div_mod::lemma_add_mod_noop_right(b as int, x, m);
}

/// A call that changes a [`GlobalTransport`].
pub enum TransportCall {
    /// `play()`.
    Play,
    /// `stop()`.
    Stop,
    /// `advance(samples)`.
    Advance(u64),
    /// `set_sample_position(position)`.
    SetSamplePosition(u64),
    /// `set_tempo_bpm_scaled(scaled)`.
    SetTempoBpmScaled(u32),
    /// `set_sample_rate(sample_rate)`.
    SetSampleRate(u32),
}

/// What the contract of each changing call allows: `after` is a state that
/// `call` may leave behind when made on `before`.
pub open spec fn transport_step(before: GlobalTransport, call: TransportCall, after: GlobalTransport) -> bool {
    match call {
        TransportCall::Play => after.playing() && after.position() == before.position()
            && after.tempo_scaled() == before.tempo_scaled() && after.rate() == before.rate(),
        TransportCall::Stop => !after.playing() && after.position() == before.position()
            && after.tempo_scaled() == before.tempo_scaled() && after.rate() == before.rate(),
        TransportCall::Advance(n) => after.position() == (before.position() + n) % 0x1_0000_0000_0000_0000
            && after.tempo_scaled() == before.tempo_scaled() && after.rate() == before.rate()
            && after.playing() == before.playing(),
        TransportCall::SetSamplePosition(p) => after.position() == p
            && after.tempo_scaled() == before.tempo_scaled() && after.rate() == before.rate()
            && after.playing() == before.playing(),
        TransportCall::SetTempoBpmScaled(t) => after.tempo_scaled() == t
            && after.position() == before.position() && after.rate() == before.rate()
            && after.playing() == before.playing(),
        TransportCall::SetSampleRate(r) => after.rate() == r
            && after.position() == before.position() && after.tempo_scaled() == before.tempo_scaled()
            && after.playing() == before.playing(),
    }
}

/// `states` is a run of `calls`: each state follows from the one before by
/// the call between them.
pub open spec fn transport_run(states: Seq<GlobalTransport>, calls: Seq<TransportCall>) -> bool {
    &&& states.len() == calls.len() + 1
    &&& forall|i: int| 0 <= i < calls.len() ==> #[trigger] transport_step(states[i], calls[i], states[i + 1])
}

/// Whether the last `play` or `stop` among `calls` was `play` (`false`
/// when there was neither).
pub open spec fn last_start_or_stop_was_play(calls: Seq<TransportCall>) -> bool
    decreases calls.len(),
{
    if calls.len() == 0 {
        false
    } else {
        match calls.last() {
            TransportCall::Play => true,
            TransportCall::Stop => false,
            _ => last_start_or_stop_was_play(calls.drop_last()),
        }
    }
}

/// A clock that starts stopped (as `new` makes it) plays after any sequence
/// of calls exactly when the last `play` or `stop` among them was `play`.
pub proof fn lemma_playing_follows_last_play_or_stop(states: Seq<GlobalTransport>, calls: Seq<TransportCall>)
    requires
        transport_run(states, calls),
        !states[0].playing(),
    ensures
        states.last().playing() == last_start_or_stop_was_play(calls),
    decreases calls.len(),
{
    if calls.len() > 0 {
        let n = calls.len() - 1;
        let prefix = states.drop_last();
        assert forall|i: int| 0 <= i < calls.drop_last().len() implies #[trigger] transport_step(
            prefix[i],
            calls.drop_last()[i],
            prefix[i + 1],
        ) by {
            assert(transport_step(states[i], calls[i], states[i + 1]));
        }
        lemma_playing_follows_last_play_or_stop(prefix, calls.drop_last());
        assert(transport_step(states[n], calls[n], states[n + 1]));
    }
}

} // verus!
