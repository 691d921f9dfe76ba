//! Quantized deck starts and cue jumps waiting for their moment on the
//! global clock, and where in an audio block each one fires.

use vstd::prelude::*;
use crate::display::{event_offset, offset_in_block};

verus! {

/// Number of decks.
pub const NUM_DECKS: usize = 4;

/// What a deck does in an audio block.
#[derive(Debug, Clone, Copy, PartialEq, Eq, Structural)]
pub enum BlockAction {
    /// Render the block as the deck stands.
    Render,
    /// Start playback this many frames into the block (silence before).
    StartAt(usize),
    /// Jump to the cue position (second field) this many frames into the
    /// block.
    CueAt(usize, i64),
}

/// Pending quantized starts and cue jumps of the four decks, in global
/// samples.
pub struct DeckSchedule {
    /// Pending quantized start position (global samples) per deck.
    pending_play: [Option<u64>; 4],
    /// Pending quantized cue jump per deck: (global-sample boundary, target frame).
    pending_seek: [Option<(u64, i64)>; 4],
}

impl DeckSchedule {
    /// Pending start of each deck.
    pub closed spec fn starts(&self) -> Seq<Option<u64>> {
        self.pending_play@
    }

    /// Pending cue jump of each deck.
    pub closed spec fn cues(&self) -> Seq<Option<(u64, i64)>> {
        self.pending_seek@
    }

    /// A schedule holds one pending start and one pending cue jump for each
    /// of the four decks.
    pub proof fn lemma_schedule_lengths(&self)
        ensures
            self.starts().len() == NUM_DECKS,
            self.cues().len() == NUM_DECKS,
    {
    }

    /// Nothing pending.
    pub fn new() -> (r: DeckSchedule)
        ensures
            r.starts() == seq![None::<u64>, None, None, None],
            r.cues() == seq![None::<(u64, i64)>, None, None, None],
    {
        let r = DeckSchedule { pending_play: [None; 4], pending_seek: [None; 4] };
        assert(r.starts() =~= seq![None::<u64>, None, None, None]);
        assert(r.cues() =~= seq![None::<(u64, i64)>, None, None, None]);
        r
    }

    /// Drops everything pending for deck `d` (on load, pause and stop).
    pub fn cancel(&mut self, d: usize)
        requires
            d < NUM_DECKS,
        ensures
            final(self).starts() == old(self).starts().update(d as int, None),
            final(self).cues() == old(self).cues().update(d as int, None),
            final(self).starts().len() == NUM_DECKS,
            final(self).cues().len() == NUM_DECKS,
    {
        self.pending_play[d] = None;
        self.pending_seek[d] = None;
    }

    /// Schedules (`Some`) or drops (`None`) the start of deck `d`.
    pub fn set_start(&mut self, d: usize, at: Option<u64>)
        requires
            d < NUM_DECKS,
        ensures
            final(self).starts() == old(self).starts().update(d as int, at),
            final(self).cues() == old(self).cues(),
            final(self).starts().len() == NUM_DECKS,
            final(self).cues().len() == NUM_DECKS,
    {
        self.pending_play[d] = at;
    }

    /// Schedules (`Some`) or drops (`None`) a cue jump of deck `d`.
    pub fn set_cue(&mut self, d: usize, jump: Option<(u64, i64)>)
        requires
            d < NUM_DECKS,
        ensures
            final(self).starts() == old(self).starts(),
            final(self).cues() == old(self).cues().update(d as int, jump),
            final(self).starts().len() == NUM_DECKS,
            final(self).cues().len() == NUM_DECKS,
    {
        self.pending_seek[d] = jump;
    }

    /// What deck `d` does in the block of `frames` frames starting at global
    /// sample `block_start`: a pending start fires (while the clock plays)
    /// when it falls before the block's end, else a pending cue jump fires
    /// when it falls before the block's end; what fires is no longer
    /// pending.
    pub fn take_action(&mut self, d: usize, playing: bool, block_start: u64, frames: usize) -> (r: BlockAction)
        requires
            d < NUM_DECKS,
            block_start + frames <= u64::MAX,
        ensures
            r == block_action(old(self).starts()[d as int], old(self).cues()[d as int], playing, block_start, frames as nat),
            final(self).starts() == (if r is StartAt { old(self).starts().update(d as int, None) } else { old(self).starts() }),
            final(self).cues() == (if r is CueAt { old(self).cues().update(d as int, None) } else { old(self).cues() }),
            final(self).starts().len() == NUM_DECKS,
            final(self).cues().len() == NUM_DECKS,
    {
        if let Some(start) = self.pending_play[d] {
            if playing {
                if let Some(k) = event_offset(start, block_start, frames) {
                    self.pending_play[d] = None;
                    return BlockAction::StartAt(k);
                }
            }
        }
        if let Some((boundary, target)) = self.pending_seek[d] {
            if let Some(k) = event_offset(boundary, block_start, frames) {
                self.pending_seek[d] = None;
                return BlockAction::CueAt(k, target);
            }
        }
        BlockAction::Render
    }
}

/// The action of a deck with pending start `start` and pending cue jump
/// `cue` in a block.
pub open spec fn block_action(start: Option<u64>, cue: Option<(u64, i64)>, playing: bool, block_start: u64, frames: nat) -> BlockAction {
    match start {
        Some(at) if playing && offset_in_block(at, block_start, frames) is Some =>
            BlockAction::StartAt(offset_in_block(at, block_start, frames)->0 as usize),
        _ => match cue {
            Some((at, target)) if offset_in_block(at, block_start, frames) is Some =>
                BlockAction::CueAt(offset_in_block(at, block_start, frames)->0 as usize, target),
            _ => BlockAction::Render,
        },
    }
}

/// A scheduled event fires in the block that contains it and not in an
/// earlier one: over consecutive blocks it fires exactly once, at its
/// offset in its own block.
pub proof fn lemma_event_fires_in_its_block(at: u64, block_start: u64, frames: nat)
    requires
        block_start <= at,
        at < block_start + frames,
    ensures
        offset_in_block(at, block_start, frames) == Some((at - block_start) as nat),
        forall|earlier: u64| earlier + frames <= block_start ==> #[trigger] offset_in_block(at, earlier, frames) is None,
{
}

} // verus!
