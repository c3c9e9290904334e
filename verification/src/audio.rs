//! Audio samples on their way to the output device.

use vstd::prelude::*;

verus! {

/// How many values the ring buffer of the audio output holds, about four
/// frames of stereo audio.
pub const RING_CAPACITY: usize = 4096;

/// A destination for the audio of each frame.
///
/// The relation names what one call may do. A sink can define it; by default
/// it demands nothing.
pub trait AudioSink: Sized {
    /// `push(samples)` may turn `before` into `after` and return `outcome`.
    open spec fn accepts(
        before: Self,
        samples: Seq<i16>,
        after: Self,
        outcome: Result<(), std::io::Error>,
    ) -> bool {
        true
    }

    fn push(&mut self, samples: &[i16]) -> (r: Result<(), std::io::Error>)
        ensures
            Self::accepts(*old(self), samples@, *final(self), r),
    ;
}

// ---------------------------------------------------------------------------
// Ring buffer
// ---------------------------------------------------------------------------

/// Ring buffer for interleaved audio samples. One slot stays free, so a buffer
/// of `n` slots queues at most `n - 1` samples.
pub struct RingBuffer {
    buf: Vec<i16>,
    cap: usize,
    write_pos: usize,
    read_pos: usize,
}

/// The last `n` elements of `s`, or all of them if there are fewer.
pub open spec fn last_of(s: Seq<i16>, n: nat) -> Seq<i16> {
    if s.len() <= n {
        s
    } else {
        s.skip(s.len() - n)
    }
}

/// What a buffer with `capacity` slots queues after a write: the newest
/// samples, as many as fit.
pub open spec fn after_write(queue: Seq<i16>, capacity: nat, samples: Seq<i16>) -> Seq<i16> {
    last_of(queue + samples, (capacity - 1) as nat)
}

/// The sample that a read puts at index `i`: silence where the queue has
/// none.
pub open spec fn sample_read(queue: Seq<i16>, i: int) -> i16 {
    if i < queue.len() {
        queue[i]
    } else {
        0
    }
}

/// What reading `n` samples yields.
pub open spec fn read_out(queue: Seq<i16>, n: nat) -> Seq<i16> {
    Seq::new(n, |i: int| sample_read(queue, i))
}

/// What stays queued after reading `n` samples.
pub open spec fn after_read(queue: Seq<i16>, n: nat) -> Seq<i16> {
    if n <= queue.len() {
        queue.skip(n as int)
    } else {
        Seq::empty()
    }
}

/// How many samples lie between the read and the write position.
spec fn queued(cap: int, rp: int, wp: int) -> int {
    if wp >= rp {
        wp - rp
    } else {
        cap - (rp - wp)
    }
}

/// Position `pos` moved on by `n` slots.
spec fn moved(cap: int, pos: int, n: int) -> int {
    (pos + n) % cap
}

/// Moving on by less than a whole turn wraps at most once, and is what the
/// distance of the positions tells.
proof fn lemma_moved(cap: int, pos: int, n: int)
    requires
        0 <= pos < cap,
        0 <= n < cap,
    ensures
        moved(cap, pos, n) == (if pos + n < cap {
            pos + n
        } else {
            pos + n - cap
        }),
        queued(cap, pos, moved(cap, pos, n)) == n,
{
    if pos + n < cap {
        vstd::arithmetic::div_mod::lemma_small_mod((pos + n) as nat, cap as nat);
    } else {
        vstd::arithmetic::div_mod::lemma_fundamental_div_mod_converse(
            pos + n,
            cap,
            1,
            pos + n - cap,
        );
    }
}

/// Moving on twice is moving on by the sum.
proof fn lemma_moved_twice(cap: int, pos: int, m: int, n: int)
    requires
        cap > 0,
    ensures
        moved(cap, moved(cap, pos, m), n) == moved(cap, pos, m + n),
        0 <= moved(cap, pos, m) < cap,
{
    vstd::arithmetic::div_mod::lemma_add_mod_noop_right(n, pos + m, cap);
    vstd::arithmetic::div_mod::lemma_mod_bound(pos + m, cap);
    assert(moved(cap, pos, m) + n == n + (pos + m) % cap);
    assert(pos + (m + n) == n + (pos + m));
}

/// Distances that differ by less than a whole turn lead to different slots.
proof fn lemma_slots_differ(cap: int, pos: int, m: int, n: int)
    requires
        m < n < m + cap,
    ensures
        moved(cap, pos, m) != moved(cap, pos, n),
{
    lemma_moved_twice(cap, pos, m, n - m);
    lemma_moved(cap, moved(cap, pos, m), n - m);
}

impl RingBuffer {
    /// The positions lie in the buffer.
    #[verifier::type_invariant]
    spec fn inv(self) -> bool {
        &&& self.buf@.len() == self.cap
        &&& self.cap > 0 ==> self.write_pos < self.cap && self.read_pos < self.cap
        &&& self.cap == 0 ==> self.write_pos == 0 && self.read_pos == 0
    }

    /// The number of slots.
    pub closed spec fn capacity(&self) -> nat {
        self.cap as nat
    }
}

impl View for RingBuffer {
    type V = Seq<i16>;

    /// The queued samples, oldest first.
    closed spec fn view(&self) -> Seq<i16> {
        Seq::new(
            queued(self.cap as int, self.read_pos as int, self.write_pos as int) as nat,
            |i: int| self.buf@[moved(self.cap as int, self.read_pos as int, i)],
        )
    }
}

impl RingBuffer {
    /// An empty buffer with the given number of slots.
    pub fn new(capacity: usize) -> (r: Self)
        ensures
            r.capacity() == capacity,
            r@ == Seq::<i16>::empty(),
    {
        let r = RingBuffer { buf: vec![0; capacity], cap: capacity, write_pos: 0, read_pos: 0 };
        assert(r@ =~= Seq::<i16>::empty());
        r
    }

    /// How many samples can be written before the oldest are lost.
    fn available_write(&self, rp: usize, wp: usize) -> (r: usize)
        requires
            rp < self.cap,
            wp < self.cap,
        ensures
            r == self.cap - 1 - queued(self.cap as int, rp as int, wp as int),
    {
        if wp >= rp {
            self.cap - (wp - rp) - 1
        } else {
            rp - wp - 1
        }
    }

    /// How many samples can be read.
    fn available_read(&self, rp: usize, wp: usize) -> (r: usize)
        requires
            rp <= self.cap,
            wp <= self.cap,
        ensures
            r == queued(self.cap as int, rp as int, wp as int),
    {
        if wp >= rp {
            wp - rp
        } else {
            self.cap - (rp - wp)
        }
    }

    /// The position `n` slots after `pos`.
    fn advance(&self, pos: usize, n: usize) -> (r: usize)
        requires
            pos < self.cap,
        ensures
            r == moved(self.cap as int, pos as int, n as int),
            r < self.cap,
    {
        let k: usize = n % self.cap;
        let room: usize = self.cap - pos;
        proof {
            let c = self.cap as int;
            vstd::arithmetic::div_mod::lemma_add_mod_noop_right(pos as int, n as int, c);
            lemma_moved(c, pos as int, k as int);
        }
        if k >= room {
            k - room
        } else {
            pos + k
        }
    }

    /// Write samples (interleaved). Overwrites the oldest if full.
    pub fn write_i16(&mut self, samples: &[i16])
        requires
            old(self).capacity() > 0,
        ensures
            final(self).capacity() == old(self).capacity(),
            final(self)@ == after_write(old(self)@, old(self).capacity(), samples@),
    {
        proof {
            use_type_invariant(&*self);
        }
        let ghost cap = self.cap as int;
        let ghost start = self.read_pos as int;
        let ghost used = self@.len() as int;
        let ghost all = self@ + samples@;

        let rp: usize = self.read_pos;
        let available: usize = self.available_write(rp, self.write_pos);
        let mut overflow: usize = 0;
        if samples.len() > available {
            // The buffer is full: drop the oldest samples.
            overflow = samples.len() - available;
            self.read_pos = self.advance(rp, overflow);
        } else {
            proof {
                lemma_moved(cap, start, 0);
            }
        }
        let ghost from = self.read_pos as int;

        let mut wp: usize = self.write_pos;
        let mut i: usize = 0;
        proof {
            lemma_moved(cap, start, used);
        }
        while i < samples.len()
            invariant
                i <= samples@.len(),
                self.inv(),
                self.cap == cap,
                cap > 0,
                wp < cap,
                0 <= used < cap,
                all.len() == used + samples@.len(),
                all.skip(used) == samples@,
                self.read_pos == from,
                wp == moved(cap, start, used + i),
                forall|t: int|
                    0 <= t < used + i && used + i - cap <= t ==> self.buf@[#[trigger] moved(
                        cap,
                        start,
                        t,
                    )] == all[t],
            decreases samples@.len() - i,
        {
            let ghost before = self.buf@;
            let sample: i16 = samples[i];
            assert(sample == all.skip(used)[i as int]);
            self.buf[wp] = sample;
            proof {
                assert forall|t: int|
                    0 <= t < used + i + 1 && used + i + 1 - cap <= t implies self.buf@[#[trigger] moved(
                    cap,
                    start,
                    t,
                )] == all[t] by {
                    if t < used + i {
                        lemma_slots_differ(cap, start, t, used + i);
                        lemma_moved_twice(cap, start, t, 0);
                    }
                }
                lemma_moved_twice(cap, start, used + i, 1);
            }
            wp = self.advance(wp, 1);
            i = i + 1;
        }
        self.write_pos = wp;
        proof {
            let n = all.len() - overflow;
            lemma_moved_twice(cap, start, overflow as int, n);
            lemma_moved(cap, from, n);
            assert(queued(cap, from, wp as int) == n);
            assert forall|k: int| 0 <= k < n implies self@[k] == all[overflow + k] by {
                lemma_moved_twice(cap, start, overflow as int, k);
            }
            assert(self@ =~= all.skip(overflow as int));
            assert(all.skip(0) =~= all);
        }
    }

    /// Read samples (interleaved), oldest first, and fill the rest of `out`
    /// with silence.
    pub fn read_i16(&mut self, out: &mut [i16])
        ensures
            final(self).capacity() == old(self).capacity(),
            final(self)@ == after_read(old(self)@, old(out)@.len()),
            final(out)@ == read_out(old(self)@, old(out)@.len()),
    {
        proof {
            use_type_invariant(&*self);
        }
        let ghost cap = self.cap as int;
        let ghost start = self.read_pos as int;
        let ghost queue = self@;
        let len: usize = out.len();
        let mut rp: usize = self.read_pos;
        let available: usize = self.available_read(rp, self.write_pos);
        let to_read: usize = if len < available {
            len
        } else {
            available
        };

        let mut i: usize = 0;
        proof {
            if cap > 0 {
                lemma_moved(cap, start, 0);
            }
        }
        while i < to_read
            invariant
                i <= to_read <= len,
                to_read <= queue.len() < cap || to_read == 0,
                out@.len() == len,
                self.inv(),
                self.cap == cap,
                self@ == queue,
                self.read_pos == start,
                to_read > 0 ==> rp == moved(cap, start, i as int) && rp < cap,
                to_read == 0 ==> rp == start,
                forall|k: int| 0 <= k < i ==> out@[k] == queue[k],
            decreases to_read - i,
        {
            assert(self.buf@[rp as int] == queue[i as int]);
            out[i] = self.buf[rp];
            proof {
                lemma_moved_twice(cap, start, i as int, 1);
            }
            rp = self.advance(rp, 1);
            i = i + 1;
        }
        // Fill the remainder with silence.
        while i < len
            invariant
                to_read <= i <= len,
                out@.len() == len,
                forall|k: int| 0 <= k < to_read ==> out@[k] == queue[k],
                forall|k: int| to_read <= k < i ==> out@[k] == 0,
            decreases len - i,
        {
            out[i] = 0;
            i = i + 1;
        }
        self.read_pos = rp;
        proof {
            assert(out@ =~= read_out(queue, len as nat));
            if to_read > 0 {
                let rest = queue.len() - to_read;
                lemma_moved(cap, start, queue.len() as int);
                lemma_moved_twice(cap, start, to_read as int, rest);
                lemma_moved(cap, rp as int, rest);
                assert forall|k: int| 0 <= k < rest implies self@[k] == queue[to_read + k] by {
                    lemma_moved_twice(cap, start, to_read as int, k);
                }
            }
            assert(self@ =~= after_read(queue, len as nat));
        }
    }
}

/// What was queued and written comes back in order, if it fits, and nothing
/// stays behind.
pub proof fn what_fits_reads_back(queue: Seq<i16>, capacity: nat, samples: Seq<i16>)
    requires
        queue.len() + samples.len() < capacity,
    ensures
        read_out(after_write(queue, capacity, samples), queue.len() + samples.len()) == queue
            + samples,
        after_read(after_write(queue, capacity, samples), queue.len() + samples.len())
            == Seq::<i16>::empty(),
{
    assert(read_out(queue + samples, queue.len() + samples.len()) =~= queue + samples);
    assert(after_read(queue + samples, queue.len() + samples.len()) =~= Seq::<i16>::empty());
}

/// A buffer never queues more than one sample less than its slots, and a
/// write loses samples only when it fills the buffer up to that.
pub proof fn one_slot_stays_free(queue: Seq<i16>, capacity: nat, samples: Seq<i16>)
    requires
        capacity > 0,
    ensures
        after_write(queue, capacity, samples).len() < capacity,
        after_write(queue, capacity, samples).len() < queue.len() + samples.len() ==> after_write(
            queue,
            capacity,
            samples,
        ).len() == capacity - 1,
{
}

/// The newest sample written is never lost, unless the buffer has a single
/// slot.
pub proof fn the_newest_sample_is_kept(queue: Seq<i16>, capacity: nat, samples: Seq<i16>)
    requires
        capacity > 1,
        samples.len() > 0,
    ensures
        after_write(queue, capacity, samples).len() > 0,
        after_write(queue, capacity, samples).last() == samples.last(),
{
}

/// Writing in two pieces queues the same as writing at once.
pub proof fn writes_add_up(queue: Seq<i16>, capacity: nat, a: Seq<i16>, b: Seq<i16>)
    requires
        capacity > 0,
    ensures
        after_write(after_write(queue, capacity, a), capacity, b) == after_write(
            queue,
            capacity,
            a + b,
        ),
{
    assert(after_write(after_write(queue, capacity, a), capacity, b) =~= after_write(
        queue,
        capacity,
        a + b,
    ));
}

/// Reading in two pieces yields the same as reading at once.
pub proof fn reads_add_up(queue: Seq<i16>, m: nat, n: nat)
    ensures
        read_out(queue, m + n) == read_out(queue, m) + read_out(after_read(queue, m), n),
        after_read(queue, m + n) == after_read(after_read(queue, m), n),
{
    assert(read_out(queue, m + n) =~= read_out(queue, m) + read_out(after_read(queue, m), n));
    assert(after_read(queue, m + n) =~= after_read(after_read(queue, m), n));
}

// ---------------------------------------------------------------------------
// Choice of the output
// ---------------------------------------------------------------------------

/// Whether to play on the device: silence it is if muted, and also if the
/// device could not be opened.
pub fn audio_choice(mute: bool, opened: bool) -> (native: bool)
    ensures
        native == (!mute && opened),
{
    !mute && opened
}

// ---------------------------------------------------------------------------
// Recording output
// ---------------------------------------------------------------------------

/// Audio output without a device: it keeps all it is given.
#[derive(Debug)]
pub struct MockAudioOut {
    pub buffer: Vec<i16>,
    pub sample_rate: u32,
    pub channels: u16,
}

impl MockAudioOut {
    pub fn new() -> (r: Self)
        ensures
            r.buffer@ == Seq::<i16>::empty(),
            r.sample_rate == 44100,
            r.channels == 2,
    {
        MockAudioOut { buffer: Vec::new(), sample_rate: 44100, channels: 2 }
    }

    pub fn push(&mut self, samples: &[i16])
        ensures
            final(self).buffer@ == old(self).buffer@ + samples@,
            final(self).sample_rate == old(self).sample_rate,
            final(self).channels == old(self).channels,
    {
        self.buffer.extend_from_slice(samples);
        assert(self.buffer@ =~= old(self).buffer@ + samples@);
    }

    pub fn into_buffer(self) -> (r: Vec<i16>)
        ensures
            r@ == self.buffer@,
    {
        self.buffer
    }
}

impl AudioSink for MockAudioOut {
    open spec fn accepts(
        before: Self,
        samples: Seq<i16>,
        after: Self,
        outcome: Result<(), std::io::Error>,
    ) -> bool {
        &&& outcome is Ok
        &&& after.buffer@ == before.buffer@ + samples
        &&& after.sample_rate == before.sample_rate
        &&& after.channels == before.channels
    }

    fn push(&mut self, samples: &[i16]) -> (r: Result<(), std::io::Error>) {
        self.push(samples);
        Ok(())
    }
}

/// A write keeps the newest samples, as many as there are slots but one: the
/// queue then ends with them, each at its place, and only the oldest are gone.
pub proof fn a_write_keeps_the_newest(queue: Seq<i16>, capacity: nat, samples: Seq<i16>)
    requires
        capacity > 0,
    ensures
        ({
            let all = queue + samples;
            let kept = after_write(queue, capacity, samples);
            &&& kept.len() == (if all.len() < capacity {
                all.len() as int
            } else {
                capacity - 1
            })
            &&& forall|i: int|
                0 <= i < kept.len() ==> #[trigger] kept[i] == all[all.len() - kept.len() + i]
        }),
{
}

/// A read gives the oldest samples first and zeros where the queue has ended,
/// and takes what it gave out of the queue and nothing else.
pub proof fn a_read_takes_the_oldest(queue: Seq<i16>, n: nat)
    ensures
        read_out(queue, n).len() == n,
        forall|i: int|
            0 <= i < n ==> #[trigger] read_out(queue, n)[i] == (if i < queue.len() {
                queue[i]
            } else {
                0
            }),
        n <= queue.len() ==> queue == read_out(queue, n) + after_read(queue, n),
        n >= queue.len() ==> after_read(queue, n).len() == 0,
{
    if n <= queue.len() {
        assert(queue =~= read_out(queue, n) + after_read(queue, n));
    }
}

} // verus!
