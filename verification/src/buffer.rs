//! Audio buffers: a single-producer ring buffer of samples and a
//! pre-allocated scratch buffer.

use vstd::prelude::*;

verus! {

/// A ring buffer of audio samples. One slot is always kept free, so a
/// buffer of capacity `n` holds at most `n - 1` samples.
pub struct AudioRingBuffer<T> {
    buffer: Vec<T>,
    write_pos: usize,
    read_pos: usize,
    capacity: usize,
}

/// Slot of the `i`-th queued sample, counting from `read` in a ring of
/// `cap` slots.
pub open spec fn ring_slot(read: int, i: int, cap: int) -> int {
    if read + i < cap { read + i } else { read + i - cap }
}

/// Number of queued samples between the read and write cursors.
pub open spec fn ring_count(write: int, read: int, cap: int) -> int {
    if write >= read { write - read } else { cap - read + write }
}

impl<T> AudioRingBuffer<T> {
    /// The buffer holds `capacity` slots and both cursors point into it.
    pub closed spec fn wf(&self) -> bool {
        &&& self.buffer@.len() == self.capacity
        &&& self.capacity > 0 ==> self.write_pos < self.capacity && self.read_pos < self.capacity
        &&& self.capacity == 0 ==> self.write_pos == 0 && self.read_pos == 0
    }

    /// Number of slots.
    pub closed spec fn spec_capacity(&self) -> nat {
        self.capacity as nat
    }

    /// The queued samples, oldest first.
    pub closed spec fn contents(&self) -> Seq<T> {
        Seq::new(
            ring_count(self.write_pos as int, self.read_pos as int, self.capacity as int) as nat,
            |i: int|
                self.buffer@[ring_slot(self.read_pos as int, i, self.capacity as int)],
        )
    }

}

impl<T: Copy> AudioRingBuffer<T> {
    /// Creates an empty buffer of `capacity` slots, each initialised to
    /// `silence`.
    pub fn new(capacity: usize, silence: T) -> (r: Self)
        ensures
            r.wf(),
            r.spec_capacity() == capacity,
            r.contents() == Seq::<T>::empty(),
    {
        let mut buffer: Vec<T> = Vec::with_capacity(capacity);
        for i in 0..capacity
            invariant
                buffer@.len() == i,
        {
            buffer.push(silence);
        }
        let r = AudioRingBuffer { buffer, write_pos: 0, read_pos: 0, capacity };
        assert(r.contents() =~= Seq::<T>::empty());
        r
    }

    /// Number of samples available to read.
    pub fn available(&self) -> (r: usize)
        requires
            self.wf(),
        ensures
            r == self.contents().len(),
    {
        if self.write_pos >= self.read_pos {
            self.write_pos - self.read_pos
        } else {
            self.capacity - self.read_pos + self.write_pos
        }
    }

    /// Number of samples that can be written: the free slots but one.
    pub fn space(&self) -> (r: usize)
        requires
            self.wf(),
            self.spec_capacity() > 0,
        ensures
            r == self.spec_capacity() - self.contents().len() - 1,
    {
        self.capacity - self.available() - 1
    }

    /// Writes as many of `samples` as there is space for, in order, and
    /// returns how many were written.
    pub fn write(&mut self, samples: &[T]) -> (r: usize)
        requires
            old(self).wf(),
            old(self).spec_capacity() > 0,
        ensures
            final(self).wf(),
            r == if samples@.len() < old(self).spec_capacity() - old(self).contents().len() - 1 {
                samples@.len() as int
            } else {
                old(self).spec_capacity() - old(self).contents().len() - 1
            },
            final(self).spec_capacity() == old(self).spec_capacity(),
            final(self).contents() == old(self).contents() + samples@.take(r as int),
    {
        let space = self.space();
        let to_write = if samples.len() < space { samples.len() } else { space };
        let mut k: usize = 0;
        while k < to_write
            invariant
                0 <= k <= to_write <= samples@.len(),
                to_write <= space,
                space == old(self).spec_capacity() - old(self).contents().len() - 1,
                self.capacity == old(self).capacity,
                self.capacity > 0,
                self.read_pos == old(self).read_pos,
                self.buffer@.len() == self.capacity,
                self.write_pos < self.capacity,
                self.read_pos < self.capacity,
                self.contents() == old(self).contents() + samples@.take(k as int),
            decreases to_write - k,
        {
            let ghost before = self.contents();
            let x = samples[k];
            let w = self.write_pos;
            self.buffer.set(w, x);
            self.write_pos = if w + 1 == self.capacity { 0 } else { w + 1 };
            k = k + 1;
            proof {
                assert(self.contents() =~= before.push(x));
                assert(samples@.take(k as int) =~= samples@.take(k - 1).push(x));
            }
        }
        to_write
    }

    /// Reads up to `output.len()` of the oldest samples into the front of
    /// `output` and returns how many were read.
    pub fn read(&mut self, output: &mut [T]) -> (r: usize)
        requires
            old(self).wf(),
        ensures
            final(self).wf(),
            r == if old(output)@.len() < old(self).contents().len() {
                old(output)@.len() as int
            } else {
                old(self).contents().len() as int
            },
            final(self).spec_capacity() == old(self).spec_capacity(),
            final(self).contents() == old(self).contents().skip(r as int),
            final(output)@ == old(self).contents().take(r as int) + old(output)@.skip(r as int),
    {
        let available = self.available();
        let to_read = if output.len() < available { output.len() } else { available };
        let mut k: usize = 0;
        while k < to_read
            invariant
                0 <= k <= to_read <= old(output)@.len(),
                to_read <= available,
                available == old(self).contents().len(),
                output@.len() == old(output)@.len(),
                self.capacity == old(self).capacity,
                self.write_pos == old(self).write_pos,
                self.buffer == old(self).buffer,
                self.buffer@.len() == self.capacity,
                self.capacity > 0 ==> self.read_pos < self.capacity,
                self.capacity > 0 ==> self.write_pos < self.capacity,
                self.capacity == 0 ==> self.read_pos == 0 && self.write_pos == 0,
                self.contents() == old(self).contents().skip(k as int),
                output@ == old(self).contents().take(k as int) + old(output)@.skip(k as int),
            decreases to_read - k,
        {
            let ghost before = self.contents();
            assert(before.len() > 0);
            let rp = self.read_pos;
            let x = self.buffer[rp];
            output[k] = x;
            self.read_pos = if rp + 1 == self.capacity { 0 } else { rp + 1 };
            k = k + 1;
            proof {
                assert(x == before[0]);
                assert(self.contents().len() == before.len() - 1);
                assert forall|i: int| 0 <= i < before.len() - 1 implies #[trigger] self.contents()[i]
                    == before[i + 1] by {
                    assert(ring_slot(self.read_pos as int, i, self.capacity as int) == ring_slot(
                        rp as int,
                        i + 1,
                        self.capacity as int,
                    ));
                }
                assert(self.contents() =~= before.drop_first());
                assert(self.contents() =~= old(self).contents().skip(k as int));
                assert(output@ =~= old(self).contents().take(k as int) + old(output)@.skip(
                    k as int,
                ));
            }
        }
        to_read
    }

    /// Empties the buffer.
    pub fn clear(&mut self)
        requires
            old(self).wf(),
        ensures
            final(self).wf(),
            final(self).spec_capacity() == old(self).spec_capacity(),
            final(self).contents() == Seq::<T>::empty(),
    {
        self.write_pos = 0;
        self.read_pos = 0;
        assert(self.contents() =~= Seq::<T>::empty());
    }
}

/// A ring buffer never holds more than `capacity - 1` samples, so the
/// samples that can be written and those queued add up to `capacity - 1`.
pub proof fn lemma_ring_occupancy<T>(b: AudioRingBuffer<T>)
    requires
        b.wf(),
        b.spec_capacity() > 0,
    ensures
        b.contents().len() <= b.spec_capacity() - 1,
{
}

/// Pre-allocated scratch buffer for audio processing.
pub struct ScratchBuffer<T> {
    buffer: Vec<T>,
    silence: T,
}

impl<T: Copy> ScratchBuffer<T> {
    /// The samples held.
    pub closed spec fn samples(&self) -> Seq<T> {
        self.buffer@
    }

    /// The value that `clear` writes.
    pub closed spec fn silence_value(&self) -> T {
        self.silence
    }

    /// A buffer of `max_frames * channels` samples, all `silence`.
    pub fn new(max_frames: usize, channels: usize, silence: T) -> (r: Self)
        requires
            max_frames * channels <= usize::MAX,
        ensures
            r.samples() == Seq::new((max_frames * channels) as nat, |i: int| silence),
            r.silence_value() == silence,
    {
        let n = max_frames * channels;
        let mut buffer: Vec<T> = Vec::with_capacity(n);
        for i in 0..n
            invariant
                buffer@ == Seq::new(i as nat, |j: int| silence),
        {
            buffer.push(silence);
            assert(buffer@ =~= Seq::new((i + 1) as nat, |j: int| silence));
        }
        ScratchBuffer { buffer, silence }
    }

    /// The samples, read-only.
    pub fn as_slice(&self) -> (r: &[T])
        ensures
            r@ == self.samples(),
    {
        self.buffer.as_slice()
    }

    /// The samples, writable.
    pub fn as_mut_slice(&mut self) -> (r: &mut [T])
        ensures
            r@ == old(self).samples(),
            final(self).samples() == final(r)@,
            final(self).silence_value() == old(self).silence_value(),
    {
        self.buffer.as_mut_slice()
    }

    /// Sets every sample to silence.
    pub fn clear(&mut self)
        ensures
            final(self).samples() == Seq::new(old(self).samples().len(), |i: int| old(self).silence_value()),
            final(self).silence_value() == old(self).silence_value(),
    {
        let n = self.buffer.len();
        for i in 0..n
            invariant
                n == self.buffer@.len(),
                n == old(self).buffer@.len(),
                self.silence == old(self).silence,
                forall|j: int| 0 <= j < i ==> self.buffer@[j] == self.silence,
        {
            let s = self.silence;
            self.buffer.set(i, s);
        }
        assert(self.buffer@ =~= Seq::new(old(self).samples().len(), |i: int| old(self).silence_value()));
    }
}

} // verus!
