//! Live PCM streaming: a bounded queue of interleaved samples fed by a
//! producer, and a consumer that hands them out frame by frame, filling
//! silence when the queue runs dry.
//!
//! The samples themselves are opaque to this module: any `Copy` type works,
//! and the value written on underflow is chosen by the caller.
use std::collections::VecDeque;
use std::ops::Range;
use vstd::prelude::*;

verus! {

/// Number of audio channels for a live stream.
#[derive(Debug, Clone, Copy, PartialEq, Eq, Structural)]
pub enum StreamChannels {
    /// Single channel. Push with [`LiveAudioStream::push_mono`].
    Mono,
    /// Two channels, interleaved. Push with [`LiveAudioStream::push_stereo_interleaved`].
    Stereo,
}

impl StreamChannels {
    /// Number of interleaved samples that make up one frame.
    pub open spec fn spec_count(self) -> nat {
        match self {
            StreamChannels::Mono => 1,
            StreamChannels::Stereo => 2,
        }
    }

    /// Number of interleaved samples that make up one frame.
    pub fn count(&self) -> (n: usize)
        ensures
            n == self.spec_count(),
    {
        match self {
            StreamChannels::Mono => 1,
            StreamChannels::Stereo => 2,
        }
    }
}

/// Settings for creating a [`LiveAudioStream`].
#[derive(Debug, Clone)]
pub struct StreamSettings {
    /// Sample rate of the input PCM data in Hz (default: 48000).
    pub sample_rate: u32,
    /// Number of channels (default: Mono).
    pub channels: StreamChannels,
    /// Maximum buffered duration in milliseconds. Older samples are dropped on overflow (default: 200).
    pub max_buffer_duration_ms: u32,
    /// Minimum buffered duration in milliseconds before playback starts (default: 40).
    pub start_threshold_ms: u32,
}

impl Default for StreamSettings {
    fn default() -> (s: Self)
        ensures
            s.sample_rate == 48_000,
            s.channels == StreamChannels::Mono,
            s.max_buffer_duration_ms == 200,
            s.start_threshold_ms == 40,
    {
        Self {
            sample_rate: 48_000,
            channels: StreamChannels::Mono,
            max_buffer_duration_ms: 200,
            start_threshold_ms: 40,
        }
    }
}

/// Statistics about a live audio stream's buffer state.
#[derive(Debug, Clone, Copy)]
pub struct StreamStats {
    /// Number of audio frames currently buffered.
    pub buffered_frames: usize,
    /// Number of times the audio thread found the buffer empty (underflows).
    pub underflow_count: u64,
    /// Number of samples dropped because the buffer was full (overflows).
    pub overflow_count: u64,
}

/// Interleaved samples in `duration_ms` milliseconds of a stream at
/// `sample_rate` Hz with `channels` samples per frame, counting whole
/// per-channel samples only.
pub open spec fn samples_for(sample_rate: u32, duration_ms: u32, channels: nat) -> nat {
    (sample_rate * duration_ms) as nat / 1000 * channels
}

/// The value of an event counter that wraps around at `u64::MAX` after
/// `events` more events.
pub open spec fn counter_after(count: u64, events: nat) -> u64 {
    ((count + events) % 0x1_0000_0000_0000_0000int) as u64
}

/// `n` rounded up to a whole number of `m`-sample frames.
pub open spec fn round_up(n: nat, m: nat) -> nat {
    ((n + m - 1) / (m as int) * m) as nat
}

/// Whole `m`-sample frames in `n` samples, as a sample count: at most `n`,
/// a multiple of `m`, and more than `n - m`.
pub(crate) proof fn lemma_round_down(n: nat, m: nat)
    requires
        m >= 1,
    ensures
        0 <= n / m * m <= n,
        n / m * m > n - m,
        (n / m * m) % m == 0,
{
    vstd::arithmetic::div_mod::lemma_fundamental_div_mod(n as int, m as int);
    vstd::arithmetic::div_mod::lemma_mod_pos_bound(n as int, m as int);
    vstd::arithmetic::mul::lemma_mul_is_commutative((n / m) as int, m as int);
    vstd::arithmetic::div_mod::lemma_mod_multiples_basic((n / m) as int, m as int);
}

/// A wrapping counter advanced by one event after `events` events has seen
/// `events + 1` events.
pub(crate) proof fn lemma_counter_step(count: u64, events: nat)
    ensures
        counter_after(counter_after(count, events), 1) == counter_after(count, events + 1),
        counter_after(count, 0) == count,
{
    let m: int = 0x1_0000_0000_0000_0000int;
    vstd::arithmetic::div_mod::lemma_add_mod_noop(count + events, 1, m);
    vstd::arithmetic::div_mod::lemma_mod_pos_bound(count + events, m);
    vstd::arithmetic::div_mod::lemma_small_mod(1, m as nat);
    vstd::arithmetic::div_mod::lemma_small_mod(count as nat, m as nat);
}

/// Frame `i` (counting from zero) is complete within `len` samples of
/// `m`-sample frames exactly when fewer than `len / m` frames precede it.
pub(crate) proof fn lemma_frame_fits(len: nat, m: nat, i: nat)
    requires
        m >= 1,
    ensures
        (i + 1) * m <= len <==> i < len / m,
        i * m + m == (i + 1) * m,
{
    lemma_round_down(len, m);
    vstd::arithmetic::mul::lemma_mul_is_distributive_add_other_way(m as int, i as int, 1);
    if i < len / m {
        vstd::arithmetic::mul::lemma_mul_inequality((i + 1) as int, (len / m) as int, m as int);
    } else {
        vstd::arithmetic::mul::lemma_mul_inequality((len / m) as int, i as int, m as int);
    }
}

/// The abstract state of a shared stream buffer.
#[verifier::ext_equal]
pub struct StreamState<T> {
    /// Interleaved samples waiting to be consumed, oldest first.
    pub samples: Seq<T>,
    /// Buffer length beyond which a push discards the oldest samples.
    pub max_samples: nat,
    /// Buffer length at which playback starts.
    pub threshold: nat,
    /// Sample rate of the stream in Hz.
    pub sample_rate: nat,
    /// Samples per frame.
    pub channels: nat,
    /// Whether enough samples were ever buffered for playback to begin.
    pub started: bool,
    /// Frames the consumer found missing (wrapping).
    pub underflows: u64,
    /// Samples discarded because the buffer was full (wrapping).
    pub overflows: u64,
}

impl<T> StreamState<T> {
    pub open spec fn wf(self) -> bool {
        self.channels >= 1
    }

    /// How many of the oldest samples a push of `incoming` samples discards,
    /// counting the buffered samples first and then the incoming ones: the
    /// excess over the free room, rounded up to whole frames, but never more
    /// than there are.
    pub open spec fn overflow_drop(self, incoming: nat) -> nat {
        let len = self.samples.len();
        let available: nat = if len >= self.max_samples { 0 } else { (self.max_samples - len) as nat };
        if incoming > available {
            let aligned = round_up((incoming - available) as nat, self.channels);
            if aligned <= len + incoming { aligned } else { len + incoming }
        } else {
            0
        }
    }

    /// The state after `incoming` samples are pushed: the buffered samples
    /// followed by the incoming ones, less the oldest that overflow.
    pub open spec fn pushed(self, incoming: Seq<T>) -> Self {
        let dropped = self.overflow_drop(incoming.len());
        let samples = (self.samples + incoming).skip(dropped as int);
        StreamState {
            samples: samples,
            overflows: counter_after(self.overflows, dropped),
            started: self.started || samples.len() >= self.threshold,
            ..self
        }
    }

    /// How many samples a drain of at most `max` samples removes: as many as
    /// are asked for and buffered, cut down to whole frames.
    pub open spec fn drain_amount(self, max: nat) -> nat {
        let n: nat = if max <= self.samples.len() { max } else { self.samples.len() };
        n / self.channels * self.channels
    }

    /// Same bound, threshold, sample rate and frame size as `other`.
    pub open spec fn same_shape(self, other: Self) -> bool {
        &&& self.max_samples == other.max_samples
        &&& self.threshold == other.threshold
        &&& self.sample_rate == other.sample_rate
        &&& self.channels == other.channels
    }

    /// The state after a drain of at most `max` samples.
    pub open spec fn drained(self, max: nat) -> Self {
        StreamState { samples: self.samples.skip(self.drain_amount(max) as int), ..self }
    }

    /// Frames a fill of `frames` frames by a consumer holding `pending`
    /// finds no whole frame of samples for.
    pub open spec fn missing_frames(self, pending: Seq<T>, frames: nat) -> nat {
        let source = fill_source(pending, self, frames);
        (frames - frames_with_data(source.len(), self.channels, frames)) as nat
    }

    /// The state after a fill of `frames` frames by a consumer holding
    /// `pending`: before playback starts nothing changes; afterwards the
    /// consumer's pull is drained and each missing frame is an underflow.
    pub open spec fn after_fill(self, pending: Seq<T>, frames: nat) -> Self {
        if self.started {
            StreamState {
                underflows: counter_after(self.underflows, self.missing_frames(pending, frames)),
                ..self.drained(pull_request(pending.len(), frames * self.channels))
            }
        } else {
            self
        }
    }

    /// The samples a drain of at most `max` samples hands out.
    pub open spec fn drain_output(self, max: nat) -> Seq<T> {
        self.samples.take(self.drain_amount(max) as int)
    }
}

/// Buffer state shared between the producer and the consumer of a stream.
pub struct SharedStreamState<T> {
    buffer: VecDeque<T>,
    max_buffer_samples: usize,
    start_threshold_samples: usize,
    sample_rate: u32,
    channel_count: usize,
    /// Set once enough samples are buffered to begin playback.
    started: bool,
    underflow_count: u64,
    overflow_count: u64,
}

impl<T> View for SharedStreamState<T> {
    type V = StreamState<T>;

    closed spec fn view(&self) -> StreamState<T> {
        StreamState {
            samples: self.buffer@,
            max_samples: self.max_buffer_samples as nat,
            threshold: self.start_threshold_samples as nat,
            sample_rate: self.sample_rate as nat,
            channels: self.channel_count as nat,
            started: self.started,
            underflows: self.underflow_count,
            overflows: self.overflow_count,
        }
    }
}

impl<T: Copy> SharedStreamState<T> {
    fn new(
        max_buffer_samples: usize,
        start_threshold_samples: usize,
        sample_rate: u32,
        channel_count: usize,
    ) -> (s: Self)
        ensures
            s@ == (StreamState::<T> {
                samples: Seq::empty(),
                max_samples: max_buffer_samples as nat,
                threshold: start_threshold_samples as nat,
                sample_rate: sample_rate as nat,
                channels: channel_count as nat,
                started: false,
                underflows: 0,
                overflows: 0,
            }),
    {
        SharedStreamState {
            buffer: VecDeque::with_capacity(max_buffer_samples),
            max_buffer_samples,
            start_threshold_samples,
            sample_rate,
            channel_count,
            started: false,
            underflow_count: 0,
            overflow_count: 0,
        }
    }

    /// Appends `samples`, dropping the oldest samples, in whole frames, as
    /// far as needed to stay within the buffer's bound: first buffered ones,
    /// then, if the push alone exceeds the bound, the oldest of `samples`.
    pub fn push_samples(&mut self, samples: &[T])
        requires
            old(self)@.wf(),
            samples@.len() + old(self)@.channels <= usize::MAX + 1,
        ensures
            final(self)@ == old(self)@.pushed(samples@),
    {
        let ghost old_state = self@;
        let len = self.buffer.len();
        let n = samples.len();
        let available = self.max_buffer_samples.saturating_sub(len);
        let mut skip: usize = 0;

        if n > available {
            // Drop oldest samples to make room, aligned to frame boundaries.
            let to_drop = n - available;
            proof {
                lemma_round_down((to_drop + self.channel_count - 1) as nat, self.channel_count as nat);
            }
            let frame_aligned = (to_drop + (self.channel_count - 1)) / self.channel_count
                * self.channel_count;
            let from_buffer = if frame_aligned < len { frame_aligned } else { len };
            let rest = frame_aligned - from_buffer;
            skip = if rest < n { rest } else { n };
            let mut i: usize = 0;
            while i < from_buffer
                invariant
                    0 <= i <= from_buffer <= len,
                    len == old_state.samples.len(),
                    self.buffer@ == old_state.samples.skip(i as int),
                    self@ == (StreamState { samples: self.buffer@, ..old_state }),
                decreases from_buffer - i,
            {
                let _ = self.buffer.pop_front();
                i = i + 1;
            }
            let dropped = from_buffer + skip;
            self.overflow_count = self.overflow_count.wrapping_add(dropped as u64);
        }

        let mut j: usize = skip;
        let ghost kept = self@;
        while j < n
            invariant
                skip <= j <= n,
                n == samples@.len(),
                self@ == (StreamState { samples: self.buffer@, ..kept }),
                self.buffer@ == kept.samples + samples@.subrange(skip as int, j as int),
            decreases n - j,
        {
            self.buffer.push_back(samples[j]);
            j = j + 1;
        }
        proof {
            let d = old_state.overflow_drop(n as nat) as int;
            assert(self.buffer@ =~= (old_state.samples + samples@).skip(d));
        }
        let len = self.buffer.len();

        if !self.started && len >= self.start_threshold_samples {
            self.started = true;
        }
    }

    /// Whether playback has started.
    pub fn is_started(&self) -> (b: bool)
        ensures
            b == self@.started,
    {
        self.started
    }

    /// Starts playback now, whatever is buffered; nothing else changes.
    pub fn start_playback(&mut self)
        ensures
            final(self)@ == (StreamState { started: true, ..old(self)@ }),
    {
        self.started = true;
    }

    /// Moves up to `max_samples` samples, cut down to whole frames, from the
    /// front of the buffer to the end of `dest`. Returns how many were moved.
    pub fn drain_into(&mut self, dest: &mut Vec<T>, max_samples: usize) -> (n: usize)
        requires
            old(self)@.wf(),
        ensures
            n == old(self)@.drain_amount(max_samples as nat),
            final(self)@ == old(self)@.drained(max_samples as nat),
            final(dest)@ == old(dest)@ + old(self)@.drain_output(max_samples as nat),
    {
        let ghost old_state = self@;
        let ghost old_dest = dest@;
        let len = self.buffer.len();
        let n = if max_samples < len { max_samples } else { len };
        // Align to channel_count for stereo correctness.
        proof {
            lemma_round_down(n as nat, self.channel_count as nat);
        }
        let n = n / self.channel_count * self.channel_count;
        let mut i: usize = 0;
        while i < n
            invariant
                0 <= i <= n <= len,
                len == old_state.samples.len(),
                self.buffer@ == old_state.samples.skip(i as int),
                self@ == (StreamState { samples: self.buffer@, ..old_state }),
                dest@ == old_dest + old_state.samples.take(i as int),
            decreases n - i,
        {
            match self.buffer.pop_front() {
                Some(x) => dest.push(x),
                None => {},
            }
            i = i + 1;
        }
        n
    }
}

/// How many samples a consumer holding `have` samples asks the shared buffer
/// for when it needs `needed` samples.
pub open spec fn pull_request(have: nat, needed: nat) -> nat {
    if have < needed { (needed - have) as nat } else { 0 }
}

/// The samples a started fill of `frames` frames reads from, in order: those
/// the consumer holds, then those it pulls from `shared`.
pub open spec fn fill_source<T>(pending: Seq<T>, shared: StreamState<T>, frames: nat) -> Seq<T> {
    pending + shared.drain_output(pull_request(pending.len(), frames * shared.channels))
}

/// How many of `frames` frames of `channels` samples each a fill can serve
/// from `available` samples; the rest are silence.
pub open spec fn frames_with_data(available: nat, channels: nat, frames: nat) -> nat {
    if frames <= available / channels { frames } else { available / channels }
}

/// The abstract state of a stream's consumer.
#[verifier::ext_equal]
pub struct ConsumerState<T> {
    /// Samples fetched from the shared buffer and not yet written out.
    pub pending: Seq<T>,
    /// Samples per frame.
    pub channels: nat,
    /// Sample rate of the stream in Hz.
    pub sample_rate: nat,
}

/// `after` is `before` with entries `start..end` of each of the first `outs`
/// channel buffers replaced: entry `start + i` of channel `ch` by `value(ch, i)`.
pub open spec fn outputs_written<T>(
    before: Seq<Vec<T>>,
    after: Seq<Vec<T>>,
    outs: nat,
    start: int,
    end: int,
    value: spec_fn(int, int) -> T,
) -> bool {
    buffers_updated(
        before,
        after,
        |ch: int, j: int| 0 <= ch < outs && start <= j < end,
        |ch: int, j: int| value(ch, j - start),
    )
}

/// `after` is `before` with each entry `j` of channel buffer `ch` for which
/// `written(ch, j)` holds replaced by `value(ch, j)`.
pub open spec fn buffers_updated<T>(
    before: Seq<Vec<T>>,
    after: Seq<Vec<T>>,
    written: spec_fn(int, int) -> bool,
    value: spec_fn(int, int) -> T,
) -> bool {
    &&& after.len() == before.len()
    &&& forall|ch: int| 0 <= ch < after.len() ==> #[trigger] after[ch]@.len() == before[ch]@.len()
    &&& forall|ch: int, j: int|
        0 <= ch < after.len() && 0 <= j < after[ch]@.len() ==> #[trigger] after[ch]@[j] == if written(
            ch,
            j,
        ) {
            value(ch, j)
        } else {
            before[ch]@[j]
        }
}

/// Writing `v(ch, j)` to entry `j` of buffer `ch` extends an update by `v`
/// over `w` to one over `w` and that entry.
pub(crate) proof fn lemma_write_entry<T>(
    before: Seq<Vec<T>>,
    mid: Seq<Vec<T>>,
    after: Seq<Vec<T>>,
    w: spec_fn(int, int) -> bool,
    v: spec_fn(int, int) -> T,
    ch: int,
    j: int,
)
    requires
        buffers_updated(before, mid, w, v),
        0 <= ch < mid.len(),
        0 <= j < mid[ch]@.len(),
        after.len() == mid.len(),
        forall|c: int| 0 <= c < after.len() && c != ch ==> after[c] == mid[c],
        after[ch]@ == mid[ch]@.update(j, v(ch, j)),
    ensures
        buffers_updated(before, after, |c: int, i: int| w(c, i) || (c == ch && i == j), v),
{
    assert forall|c: int| 0 <= c < after.len() implies #[trigger] after[c]@.len() == before[c]@.len() by {
        if c != ch {
            assert(after[c] == mid[c]);
        }
    }
    assert forall|c: int, i: int| 0 <= c < after.len() && 0 <= i < after[c]@.len() implies
        #[trigger] after[c]@[i] == (if w(c, i) || (c == ch && i == j) { v(c, i) } else { before[c]@[i] }) by {
        if c != ch {
            assert(after[c] == mid[c]);
            assert(mid[c]@[i] == (if w(c, i) { v(c, i) } else { before[c]@[i] }));
        } else {
            assert(mid[c]@[i] == (if w(c, i) { v(c, i) } else { before[c]@[i] }));
        }
    }
}

/// What a fill writes to entry `j` of channel buffer `c` when it writes
/// frames from `start` on, with data for its first `k` frames taken from
/// `avail` in `cc`-sample frames.
spec fn frame_value<T>(avail: Seq<T>, cc: nat, k: nat, start: int, silence: T) -> spec_fn(
    int,
    int,
) -> T {
    |c: int, j: int|
        if j - start < k {
            avail[(j - start) * cc + c]
        } else {
            silence
        }
}

/// Frames served with data among the first `i` frames of a fill that has
/// data for `k` frames.
spec fn served(i: int, k: int) -> int {
    if i <= k { i } else { k }
}

/// The consumer side of a live stream, run on the audio thread: it pulls
/// interleaved samples from the shared buffer and writes them out one
/// channel buffer per channel, filling silence where samples are missing.
pub struct StreamingSampleResource<T> {
    channel_count: usize,
    sample_rate: u32,
    local_buf: Vec<T>,
    local_pos: usize,
}

impl<T> View for StreamingSampleResource<T> {
    type V = ConsumerState<T>;

    closed spec fn view(&self) -> ConsumerState<T> {
        ConsumerState {
            pending: self.local_buf@.skip(self.local_pos as int),
            channels: self.channel_count as nat,
            sample_rate: self.sample_rate as nat,
        }
    }
}

impl<T: Copy> StreamingSampleResource<T> {
    /// Internal consistency of the consumer.
    pub closed spec fn wf(&self) -> bool {
        &&& self.local_pos <= self.local_buf@.len()
        &&& self.channel_count >= 1
        &&& self.sample_rate >= 1
    }

    /// Number of channels the consumer writes.
    pub fn num_channels(&self) -> (n: usize)
        requires
            self.wf(),
        ensures
            n == self@.channels,
            n >= 1,
    {
        self.channel_count
    }

    /// Length of the resource in frames: unbounded, so that a player never
    /// considers a live stream finished.
    pub fn len_frames(&self) -> (n: u64)
        ensures
            n == u64::MAX,
    {
        u64::MAX
    }

    /// Sample rate of the stream in Hz, always known and nonzero.
    pub fn sample_rate(&self) -> (r: Option<u32>)
        requires
            self.wf(),
        ensures
            r == Some(self@.sample_rate as u32),
            self@.sample_rate >= 1,
    {
        Some(self.sample_rate)
    }

    /// A consumer of `shared`, holding nothing yet.
    pub fn new(shared: &SharedStreamState<T>) -> (r: Self)
        requires
            shared@.channels >= 1,
            shared@.sample_rate >= 1,
        ensures
            r.wf(),
            r@ == (ConsumerState::<T> {
                pending: Seq::empty(),
                channels: shared@.channels,
                sample_rate: shared@.sample_rate,
            }),
    {
        let r = StreamingSampleResource {
            channel_count: shared.channel_count,
            sample_rate: shared.sample_rate,
            local_buf: Vec::new(),
            local_pos: 0,
        };
        assert(r@.pending =~= Seq::<T>::empty());
        r
    }

    /// Moves the unconsumed samples to the front of the local buffer, then
    /// pulls from `shared` until `frames_needed` frames are held locally or
    /// the shared buffer has no whole frame left.
    fn prefetch(&mut self, shared: &mut SharedStreamState<T>, frames_needed: usize)
        requires
            old(self).wf(),
            old(shared)@.wf(),
            old(shared)@.channels == old(self)@.channels,
            frames_needed * old(self)@.channels <= usize::MAX,
        ensures
            final(self).wf(),
            final(self).local_pos == 0,
            final(self)@.channels == old(self)@.channels,
            final(self)@.sample_rate == old(self)@.sample_rate,
            ({
                let want = pull_request(
                    old(self)@.pending.len(),
                    (frames_needed * old(self)@.channels) as nat,
                );
                &&& final(self).local_buf@ == old(self)@.pending + old(shared)@.drain_output(want)
                &&& final(shared)@ == old(shared)@.drained(want)
            }),
    {
        // Compact: move unconsumed samples to front.
        if self.local_pos > 0 {
            let rest = self.local_buf.split_off(self.local_pos);
            self.local_buf = rest;
            self.local_pos = 0;
        }
        assert(self.local_buf@ =~= old(self)@.pending);

        let samples_needed = frames_needed * self.channel_count;
        let have = self.local_buf.len();
        if have < samples_needed {
            let need = samples_needed - have;
            shared.drain_into(&mut self.local_buf, need);
        } else {
            proof {
                lemma_round_down(0, self.channel_count as nat);
            }
            assert(old(shared)@.drain_output(0) =~= Seq::<T>::empty());
            assert(old(shared)@.drained(0) =~= old(shared)@);
        }
    }

    /// Writes the frames for `buffer_range` of each output buffer, one buffer
    /// per channel; buffers beyond the stream's channel count are left alone.
    /// Before the stream has started every frame is `silence`. Afterwards the
    /// frames are taken in order from the samples held locally and, as far
    /// as needed, from `shared`; each frame for which no whole frame of
    /// samples is left is `silence` and counts as one underflow.
    /// `_start_frame` is ignored: a live stream is read sequentially.
    pub fn fill_buffers(
        &mut self,
        shared: &mut SharedStreamState<T>,
        buffers: &mut Vec<Vec<T>>,
        buffer_range: Range<usize>,
        _start_frame: u64,
        silence: T,
    )
        requires
            old(self).wf(),
            old(shared)@.wf(),
            old(shared)@.channels == old(self)@.channels,
            buffer_range.start <= buffer_range.end,
            (buffer_range.end - buffer_range.start) * old(self)@.channels <= usize::MAX,
            buffer_range.start < buffer_range.end ==> forall|ch: int|
                0 <= ch < old(buffers)@.len() && ch < old(self)@.channels ==> buffer_range.end
                    <= (#[trigger] old(buffers)@[ch])@.len(),
            buffer_range.start < buffer_range.end && old(shared)@.started && old(self)@.channels
                == 1 ==> old(buffers)@.len() >= 1,
        ensures
            final(self).wf(),
            final(self)@.channels == old(self)@.channels,
            final(self)@.sample_rate == old(self)@.sample_rate,
            ({
                let start = buffer_range.start as int;
                let end = buffer_range.end as int;
                let frames = (end - start) as nat;
                let cc = old(self)@.channels;
                let outs = if cc <= old(buffers)@.len() { cc } else { old(buffers)@.len() };
                if old(shared)@.started {
                    let want = pull_request(old(self)@.pending.len(), frames * cc);
                    let avail = fill_source(old(self)@.pending, old(shared)@, frames);
                    let k = frames_with_data(avail.len(), cc, frames);
                    &&& final(shared)@ == old(shared)@.after_fill(old(self)@.pending, frames)
                    &&& final(shared)@ == (StreamState {
                        underflows: counter_after(old(shared)@.underflows, (frames - k) as nat),
                        ..old(shared)@.drained(want)
                    })
                    &&& final(self)@.pending == avail.skip((k * cc) as int)
                    &&& outputs_written(
                        old(buffers)@,
                        final(buffers)@,
                        outs,
                        start,
                        end,
                        |ch: int, i: int|
                            if i < k {
                                avail[i * cc + ch]
                            } else {
                                silence
                            },
                    )
                } else {
                    &&& final(shared)@ == old(shared)@
                    &&& final(shared)@ == old(shared)@.after_fill(old(self)@.pending, frames)
                    &&& final(self)@ == old(self)@
                    &&& outputs_written(
                        old(buffers)@,
                        final(buffers)@,
                        outs,
                        start,
                        end,
                        |ch: int, i: int| silence,
                    )
                }
            }),
    {
        let ghost old_bufs = buffers@;
        let start = buffer_range.start;
        let end = buffer_range.end;
        let frames = end - start;
        let channels = self.channel_count;
        let outs = if channels <= buffers.len() { channels } else { buffers.len() };
        if frames == 0 {
            proof {
                lemma_round_down(0, channels as nat);
                lemma_round_down(self@.pending.len(), channels as nat);
                lemma_counter_step(shared@.underflows, 0);
                assert(shared@.drain_output(0) =~= Seq::<T>::empty());
                assert(self@.pending + shared@.drain_output(0) =~= self@.pending);
                assert(self@.pending.skip(0) =~= self@.pending);
                assert(shared@.drained(0) =~= shared@);
            }
            return;
        }

        let started = shared.started;
        if !started {
            // Not enough data buffered yet — output silence.
            let mut ch: usize = 0;
            while ch < outs
                invariant
                    0 <= ch <= outs,
                    outs <= buffers@.len(),
                    outs <= channels,
                    start < end,
                    forall|c: int|
                        0 <= c < old_bufs.len() && c < channels ==> end <= (#[trigger] old_bufs[c])@.len(),
                    buffers_updated(
                        old_bufs,
                        buffers@,
                        |c: int, j: int| c < ch && start <= j < end,
                        |c: int, j: int| silence,
                    ),
                decreases outs - ch,
            {
                let mut j: usize = start;
                while j < end
                    invariant
                        0 <= ch < outs,
                        outs <= buffers@.len(),
                        outs <= channels,
                        start <= j <= end,
                        forall|c: int|
                            0 <= c < old_bufs.len() && c < channels ==> end <= (#[trigger] old_bufs[c])@.len(),
                        buffers_updated(
                            old_bufs,
                            buffers@,
                            |c: int, i: int| (c < ch && start <= i < end) || (c == ch && start <= i < j),
                            |c: int, i: int| silence,
                        ),
                    decreases end - j,
                {
                    buffers[ch][j] = silence;
                    j = j + 1;
                }
                ch = ch + 1;
            }
            return;
        }
        self.prefetch(shared, frames);
        let ghost cc = channels as nat;
        let ghost avail = self.local_buf@;
        let ghost mid = shared@;
        let ghost u0 = shared@.underflows;
        let ghost k: nat = frames_with_data(avail.len(), cc, frames as nat);
        let ghost value = frame_value(avail, cc, k, start as int, silence);
        proof {
            let q = avail.len() / cc;
            lemma_round_down(avail.len(), cc);
            lemma_counter_step(u0, 0);
            if k < q {
                vstd::arithmetic::mul::lemma_mul_inequality(k as int, q as int, cc as int);
            }
        }
        assert(k * cc <= avail.len());
        assert(k < frames ==> avail.len() < k * cc + cc);
        assert(self.local_buf.len() == avail.len());

        if channels == 1 {
            assert(k * cc == k) by (nonlinear_arith)
                requires
                    cc == 1,
            ;
            let mut j: usize = start;
            while j < end
                invariant
                    start <= j <= end,
                    end - start == frames,
                    value == frame_value(avail, cc, k, start as int, silence),
                    channels == 1,
                    cc == 1,
                    outs == 1,
                    self.wf(),
                    self.local_buf@ == avail,
                    self.channel_count == channels,
                    self.sample_rate == old(self).sample_rate,
                    self.local_pos == served(j - start, k as int),
                    k <= frames,
                    k <= avail.len(),
                    k < frames ==> avail.len() < k + 1,
                    shared@ == (StreamState {
                        underflows: counter_after(u0, (j - start - served(j - start, k as int)) as nat),
                        ..mid
                    }),
                    buffers@.len() == old_bufs.len(),
                    old_bufs.len() >= 1,
                    end <= old_bufs[0]@.len(),
                    buffers_updated(old_bufs, buffers@, |c: int, i: int| 0 <= c < 1 && start <= i < j, value),
                decreases end - j,
            {
                proof {
                    lemma_counter_step(u0, (j - start - served(j - start, k as int)) as nat);
                    assert(buffers@[0]@.len() == old_bufs[0]@.len());
                }
                let ghost before_write = buffers@;
                if self.local_pos < self.local_buf.len() {
                    assert(j - start < k);
                    assert((j - start) * cc == j - start) by (nonlinear_arith)
                        requires
                            cc == 1,
                    ;
                    assert(value(0, j as int) == avail[self.local_pos as int]);
                    buffers[0][j] = self.local_buf[self.local_pos];
                    self.local_pos += 1;
                } else {
                    assert(value(0, j as int) == silence);
                    buffers[0][j] = silence;
                    shared.underflow_count = shared.underflow_count.wrapping_add(1);
                }
                proof {
                    lemma_write_entry(
                        old_bufs,
                        before_write,
                        buffers@,
                        |c: int, i: int| 0 <= c < 1 && start <= i < j,
                        value,
                        0,
                        j as int,
                    );
                }
                j = j + 1;
            }
        } else if channels == 2 && buffers.len() >= 2 {
            assert(k * cc == 2 * k) by (nonlinear_arith)
                requires
                    cc == 2,
            ;
            let mut j: usize = start;
            while j < end
                invariant
                    start <= j <= end,
                    end - start == frames,
                    value == frame_value(avail, cc, k, start as int, silence),
                    channels == 2,
                    cc == 2,
                    outs == 2,
                    self.wf(),
                    self.local_buf@ == avail,
                    self.channel_count == channels,
                    self.sample_rate == old(self).sample_rate,
                    self.local_pos == 2 * served(j - start, k as int),
                    k <= frames,
                    2 * k <= avail.len(),
                    k < frames ==> avail.len() < 2 * k + 2,
                    shared@ == (StreamState {
                        underflows: counter_after(u0, (j - start - served(j - start, k as int)) as nat),
                        ..mid
                    }),
                    buffers@.len() == old_bufs.len(),
                    old_bufs.len() >= 2,
                    end <= old_bufs[0]@.len(),
                    end <= old_bufs[1]@.len(),
                    buffers_updated(old_bufs, buffers@, |c: int, i: int| 0 <= c < 2 && start <= i < j, value),
                decreases end - j,
            {
                proof {
                    lemma_counter_step(u0, (j - start - served(j - start, k as int)) as nat);
                    assert(buffers@[0]@.len() == old_bufs[0]@.len());
                    assert(buffers@[1]@.len() == old_bufs[1]@.len());
                }
                let ghost before_write = buffers@;
                if self.local_buf.len() - self.local_pos > 1 {
                    assert(j - start < k);
                    assert((j - start) * cc == 2 * (j - start)) by (nonlinear_arith)
                        requires
                            cc == 2,
                    ;
                    assert(value(0, j as int) == avail[self.local_pos as int]);
                    assert(value(1, j as int) == avail[self.local_pos + 1]);
                    buffers[0][j] = self.local_buf[self.local_pos];
                    let ghost between = buffers@;
                    proof {
                        lemma_write_entry(
                            old_bufs,
                            before_write,
                            between,
                            |c: int, i: int| 0 <= c < 2 && start <= i < j,
                            value,
                            0,
                            j as int,
                        );
                    }
                    buffers[1][j] = self.local_buf[self.local_pos + 1];
                    proof {
                        lemma_write_entry(
                            old_bufs,
                            between,
                            buffers@,
                            |c: int, i: int| (0 <= c < 2 && start <= i < j) || (c == 0 && i == j),
                            value,
                            1,
                            j as int,
                        );
                    }
                    self.local_pos += 2;
                } else {
                    assert(value(0, j as int) == silence);
                    assert(value(1, j as int) == silence);
                    buffers[0][j] = silence;
                    let ghost between = buffers@;
                    proof {
                        lemma_write_entry(
                            old_bufs,
                            before_write,
                            between,
                            |c: int, i: int| 0 <= c < 2 && start <= i < j,
                            value,
                            0,
                            j as int,
                        );
                    }
                    buffers[1][j] = silence;
                    proof {
                        lemma_write_entry(
                            old_bufs,
                            between,
                            buffers@,
                            |c: int, i: int| (0 <= c < 2 && start <= i < j) || (c == 0 && i == j),
                            value,
                            1,
                            j as int,
                        );
                    }
                    shared.underflow_count = shared.underflow_count.wrapping_add(1);
                }
                j = j + 1;
            }
        } else {
            // Generic N-channel path.
            let mut j: usize = start;
            while j < end
                invariant
                    start <= j <= end,
                    end - start == frames,
                    value == frame_value(avail, cc, k, start as int, silence),
                    cc == channels,
                    channels >= 1,
                    outs <= channels,
                    outs <= old_bufs.len(),
                    avail.len() <= usize::MAX,
                    self.wf(),
                    self.local_buf@ == avail,
                    self.channel_count == channels,
                    self.sample_rate == old(self).sample_rate,
                    self.local_pos == served(j - start, k as int) * cc,
                    k <= frames,
                    k <= avail.len() / cc,
                    k * cc <= avail.len(),
                    k < frames ==> avail.len() < k * cc + cc,
                    shared@ == (StreamState {
                        underflows: counter_after(u0, (j - start - served(j - start, k as int)) as nat),
                        ..mid
                    }),
                    buffers@.len() == old_bufs.len(),
                    forall|c: int|
                        0 <= c < old_bufs.len() && c < channels ==> end <= (#[trigger] old_bufs[c])@.len(),
                    buffers_updated(old_bufs, buffers@, |c: int, i: int| 0 <= c < outs && start <= i < j, value),
                decreases end - j,
            {
                let ghost i = (j - start) as nat;
                proof {
                    lemma_counter_step(u0, (j - start - served(j - start, k as int)) as nat);
                    lemma_frame_fits(avail.len(), cc, i);
                    if i < k {
                        assert(self.local_pos == i * cc);
                        assert((i + 1) * cc <= avail.len());
                    } else {
                        assert(self.local_pos == k * cc);
                    }
                }
                let have_data = self.local_buf.len() - self.local_pos >= channels;
                assert(have_data <==> i < k);
                let mut c: usize = 0;
                while c < outs
                    invariant
                        0 <= c <= outs,
                        start <= j < end,
                        i == j - start,
                        value == frame_value(avail, cc, k, start as int, silence),
                        outs <= channels,
                        outs <= old_bufs.len(),
                        cc == channels,
                        avail.len() <= usize::MAX,
                        self.local_buf@ == avail,
                        self.local_pos <= avail.len(),
                        have_data <==> i < k,
                        have_data ==> self.local_pos + channels <= avail.len(),
                        have_data ==> self.local_pos == i * cc,
                        buffers@.len() == old_bufs.len(),
                        forall|c: int|
                            0 <= c < old_bufs.len() && c < channels ==> end <= (#[trigger] old_bufs[c])@.len(),
                        buffers_updated(
                            old_bufs,
                            buffers@,
                            |c2: int, jj: int| (0 <= c2 < outs && start <= jj < j) || (0 <= c2 < c && jj == j),
                            value,
                        ),
                    decreases outs - c,
                {
                    proof {
                        assert(buffers@[c as int]@.len() == old_bufs[c as int]@.len());
                    }
                    let ghost before_write = buffers@;
                    if have_data {
                        assert(value(c as int, j as int) == avail[self.local_pos + c]);
                        buffers[c][j] = self.local_buf[self.local_pos + c];
                    } else {
                        assert(value(c as int, j as int) == silence);
                        buffers[c][j] = silence;
                    }
                    proof {
                        lemma_write_entry(
                            old_bufs,
                            before_write,
                            buffers@,
                            |c2: int, jj: int| (0 <= c2 < outs && start <= jj < j) || (0 <= c2 < c && jj == j),
                            value,
                            c as int,
                            j as int,
                        );
                    }
                    c = c + 1;
                }
                if have_data {
                    self.local_pos += channels;
                } else {
                    shared.underflow_count = shared.underflow_count.wrapping_add(1);
                }
                j = j + 1;
            }
        }
    }
}

/// A handle to a live audio stream.
///
/// Created with [`LiveAudioStream::new`]; its consumer, which an audio player
/// drives, comes from [`as_sample`](Self::as_sample). Push PCM samples with
/// [`push_mono`](Self::push_mono) or
/// [`push_stereo_interleaved`](Self::push_stereo_interleaved).
pub struct LiveAudioStream<T> {
    shared: SharedStreamState<T>,
    settings: StreamSettings,
}

impl<T> View for LiveAudioStream<T> {
    type V = StreamState<T>;

    /// The state of the stream's shared buffer.
    closed spec fn view(&self) -> StreamState<T> {
        self.shared@
    }
}

impl<T: Copy> LiveAudioStream<T> {
    /// The settings the stream was created with.
    pub closed spec fn config(&self) -> StreamSettings {
        self.settings
    }

    /// The shared buffer is consistent with the settings.
    pub closed spec fn wf(&self) -> bool {
        let cc = self.settings.channels.spec_count();
        &&& self.shared@.wf()
        &&& self.shared@.channels == cc
        &&& self.shared@.sample_rate == self.settings.sample_rate
        &&& self.shared@.max_samples == samples_for(
            self.settings.sample_rate,
            self.settings.max_buffer_duration_ms,
            cc,
        )
        &&& self.shared@.threshold == samples_for(
            self.settings.sample_rate,
            self.settings.start_threshold_ms,
            cc,
        )
    }

    /// The stream is consistent with its settings exactly when its buffer has
    /// the frame size, sample rate, bound and threshold the settings give.
    pub proof fn lemma_wf_shape(&self)
        ensures
            self.wf() <==> {
                let cc = self.config().channels.spec_count();
                &&& self@.wf()
                &&& self@.channels == cc
                &&& self@.sample_rate == self.config().sample_rate
                &&& self@.max_samples == samples_for(
                    self.config().sample_rate,
                    self.config().max_buffer_duration_ms,
                    cc,
                )
                &&& self@.threshold == samples_for(
                    self.config().sample_rate,
                    self.config().start_threshold_ms,
                    cc,
                )
            },
    {
    }

    /// Create a new live audio stream with the given settings.
    ///
    /// The stream does not produce audio until enough data has been pushed
    /// to meet the start threshold.
    pub fn new(settings: StreamSettings) -> (s: Self)
        requires
            settings.sample_rate * settings.max_buffer_duration_ms <= usize::MAX,
            settings.sample_rate * settings.start_threshold_ms <= usize::MAX,
        ensures
            s.wf(),
            s.config() == settings,
            s@ == (StreamState::<T> {
                samples: Seq::empty(),
                max_samples: samples_for(
                    settings.sample_rate,
                    settings.max_buffer_duration_ms,
                    settings.channels.spec_count(),
                ),
                threshold: samples_for(
                    settings.sample_rate,
                    settings.start_threshold_ms,
                    settings.channels.spec_count(),
                ),
                sample_rate: settings.sample_rate as nat,
                channels: settings.channels.spec_count(),
                started: false,
                underflows: 0,
                overflows: 0,
            }),
    {
        let channel_count: usize = match settings.channels {
            StreamChannels::Mono => 1,
            StreamChannels::Stereo => 2,
        };
        let max_product = settings.sample_rate as usize * settings.max_buffer_duration_ms as usize;
        let threshold_product = settings.sample_rate as usize * settings.start_threshold_ms as usize;
        assert(max_product / 1000 * channel_count <= max_product) by (nonlinear_arith)
            requires
                1 <= channel_count <= 2,
        ;
        assert(threshold_product / 1000 * channel_count <= threshold_product) by (nonlinear_arith)
            requires
                1 <= channel_count <= 2,
        ;
        let max_samples = max_product / 1000 * channel_count;
        let start_threshold = threshold_product / 1000 * channel_count;

        let shared = SharedStreamState::new(
            max_samples,
            start_threshold,
            settings.sample_rate,
            channel_count,
        );

        Self { shared, settings }
    }

    /// Push mono PCM samples into the stream buffer.
    ///
    /// If the buffer would overflow, the oldest samples are dropped.
    pub fn push_mono(&mut self, samples: &[T])
        requires
            old(self).wf(),
            old(self).config().channels == StreamChannels::Mono,
        ensures
            final(self).wf(),
            final(self).config() == old(self).config(),
            final(self)@ == old(self)@.pushed(samples@),
    {
        assert(samples@.len() == samples.len());
        self.shared.push_samples(samples);
    }

    /// Push interleaved stereo PCM samples `[L, R, L, R, ...]` into the stream buffer.
    ///
    /// If the buffer would overflow, the oldest samples are dropped, in
    /// whole frames.
    pub fn push_stereo_interleaved(&mut self, samples: &[T])
        requires
            old(self).wf(),
            old(self).config().channels == StreamChannels::Stereo,
            samples@.len() % 2 == 0,
        ensures
            final(self).wf(),
            final(self).config() == old(self).config(),
            final(self)@ == old(self)@.pushed(samples@),
    {
        assert(samples@.len() == samples.len());
        assert(usize::MAX == 0xffff_ffff || usize::MAX == 0xffff_ffff_ffff_ffff);
        self.shared.push_samples(samples);
    }

    /// Get current buffer statistics.
    pub fn stats(&self) -> (st: StreamStats)
        requires
            self.wf(),
        ensures
            st.buffered_frames == self@.samples.len() / self.config().channels.spec_count(),
            st.underflow_count == self@.underflows,
            st.overflow_count == self@.overflows,
    {
        let channel_count = self.settings.channels.count();
        let buffered_samples = self.shared.buffer.len();
        let buffered_frames = buffered_samples / channel_count;
        StreamStats {
            buffered_frames,
            underflow_count: self.shared.underflow_count,
            overflow_count: self.shared.overflow_count,
        }
    }

    /// The consumer of this stream, to be handed to an audio player. It
    /// reads the samples pushed to this stream in order.
    pub fn as_sample(&self) -> (r: StreamingSampleResource<T>)
        requires
            self.wf(),
            self.config().sample_rate > 0,
        ensures
            r.wf(),
            r@ == (ConsumerState::<T> {
                pending: Seq::empty(),
                channels: self.config().channels.spec_count(),
                sample_rate: self.config().sample_rate as nat,
            }),
    {
        StreamingSampleResource::new(&self.shared)
    }

    /// The buffer shared with the stream's consumer.
    pub fn shared(&self) -> (r: &SharedStreamState<T>)
        ensures
            r@ == self@,
    {
        &self.shared
    }

    /// The buffer shared with the stream's consumer, for the consumer to
    /// pull from. The stream stays consistent with its settings as long as
    /// the buffer keeps its bound, threshold, rate and frame size, which
    /// every operation on it does.
    pub fn shared_mut(&mut self) -> (r: &mut SharedStreamState<T>)
        ensures
            r@ == old(self)@,
            final(self)@ == final(r)@,
            final(self).config() == old(self).config(),
            old(self).wf() && final(r)@.wf() && final(r)@.same_shape(old(self)@) ==> final(self).wf(),
    {
        &mut self.shared
    }

    /// Return the stream's settings.
    pub fn settings(&self) -> (s: &StreamSettings)
        ensures
            *s == self.config(),
    {
        &self.settings
    }
}

} // verus!
