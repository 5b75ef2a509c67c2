//! Properties of the stream buffer and of the audio schedule that hold
//! across operations, stated over the abstract states that the operations'
//! contracts use.
use crate::stream::{
    counter_after, fill_source, frames_with_data, lemma_round_down, pull_request, round_up,
    StreamState,
};
use crate::stream::LiveAudioStream;
use crate::SeedlingSystems;
use vstd::prelude::*;

verus! {

/// Rounding up to whole frames gives a multiple of the frame size that is at
/// least `n` and less than `n` plus a frame.
pub proof fn lemma_round_up(n: nat, m: nat)
    requires
        m >= 1,
    ensures
        n <= round_up(n, m) < n + m,
        round_up(n, m) % m == 0,
{
    lemma_round_down((n + m - 1) as nat, m);
}

/// A whole number of frames rounds up to itself.
pub proof fn lemma_round_up_whole(n: nat, m: nat)
    requires
        m >= 1,
        n % m == 0,
    ensures
        round_up(n, m) == n,
{
    lemma_round_up(n, m);
    let r = round_up(n, m);
    vstd::arithmetic::div_mod::lemma_sub_mod_noop(r as int, n as int, m as int);
    vstd::arithmetic::div_mod::lemma_small_mod((r - n) as nat, m);
    vstd::arithmetic::div_mod::lemma_small_mod(0, m);
}

/// Every sample is either kept or discarded: a push never discards more
/// than there are, the buffer grows by what came in less what was dropped,
/// and the overflow counter advances by exactly what was dropped.
pub proof fn lemma_push_accounts_for_every_sample<T>(s: StreamState<T>, incoming: Seq<T>)
    requires
        s.wf(),
    ensures
        s.overflow_drop(incoming.len()) <= s.samples.len() + incoming.len(),
        s.pushed(incoming).samples.len() + s.overflow_drop(incoming.len()) == s.samples.len()
            + incoming.len(),
        s.pushed(incoming).overflows == counter_after(s.overflows, s.overflow_drop(incoming.len())),
{
}

/// Overflow drops the oldest samples: after a push the buffer is what it
/// held followed by what came in, less a prefix. Starting within the bound
/// with whole frames, a push of whole frames that fits in the bound on its
/// own keeps all of what came in.
pub proof fn lemma_push_drops_oldest<T>(s: StreamState<T>, incoming: Seq<T>)
    requires
        s.wf(),
    ensures
        s.pushed(incoming).samples == (s.samples + incoming).skip(
            s.overflow_drop(incoming.len()) as int,
        ),
        s.samples.len() <= s.max_samples && incoming.len() <= s.max_samples
            && s.samples.len() % s.channels == 0 && incoming.len() % s.channels == 0
            && s.max_samples % s.channels == 0 ==> s.pushed(incoming).samples.skip(
            s.pushed(incoming).samples.len() - incoming.len(),
        ) == incoming,
{
    let len = s.samples.len();
    let n = incoming.len();
    let cc = s.channels;
    let d = s.overflow_drop(n) as int;
    if len <= s.max_samples && n <= s.max_samples && len % cc == 0 && n % cc == 0 && s.max_samples
        % cc == 0 {
        let available = (s.max_samples - len) as nat;
        if n > available {
            let to_drop = (n - available) as nat;
            vstd::arithmetic::div_mod::lemma_add_mod_noop(len as int, n as int, cc as int);
            vstd::arithmetic::div_mod::lemma_sub_mod_noop((len + n) as int, s.max_samples as int, cc as int);
            vstd::arithmetic::div_mod::lemma_small_mod(0, cc);
            assert(to_drop % cc == 0);
            lemma_round_up_whole(to_drop, cc);
        }
        assert(d <= len);
        assert(s.pushed(incoming).samples.skip(s.pushed(incoming).samples.len() - n)
            =~= incoming);
    }
}

/// A push that fits drops nothing: the samples are appended as they are.
pub proof fn lemma_push_within_room<T>(s: StreamState<T>, incoming: Seq<T>)
    requires
        s.wf(),
        s.samples.len() + incoming.len() <= s.max_samples,
    ensures
        s.overflow_drop(incoming.len()) == 0,
        s.pushed(incoming).samples == s.samples + incoming,
        s.pushed(incoming).overflows == s.overflows,
{
    assert((s.samples + incoming).skip(0) =~= s.samples + incoming);
    crate::stream::lemma_counter_step(s.overflows, 0);
}

/// The buffer never exceeds its bound: starting within it, the buffer is
/// within it after any push, however many samples come in.
pub proof fn lemma_push_stays_bounded<T>(s: StreamState<T>, incoming: Seq<T>)
    requires
        s.wf(),
        s.samples.len() <= s.max_samples,
    ensures
        s.pushed(incoming).samples.len() <= s.max_samples,
{
    let len = s.samples.len();
    let available = (s.max_samples - len) as nat;
    if incoming.len() > available {
        lemma_round_up((incoming.len() - available) as nat, s.channels);
    }
}

/// Stereo pairs stay whole: if the buffer and the pushed samples hold whole
/// frames, a push drops whole frames and leaves whole frames; a drain always
/// removes whole frames, so whole frames remain.
pub proof fn lemma_frames_stay_whole<T>(s: StreamState<T>, incoming: Seq<T>, max: nat)
    requires
        s.wf(),
        s.samples.len() % s.channels == 0,
        incoming.len() % s.channels == 0,
    ensures
        s.overflow_drop(incoming.len()) % s.channels == 0,
        s.pushed(incoming).samples.len() % s.channels == 0,
        s.drain_amount(max) % s.channels == 0,
        s.drained(max).samples.len() % s.channels == 0,
{
    let cc = s.channels;
    let len = s.samples.len();
    let n = incoming.len();
    let available: nat = if len >= s.max_samples { 0 } else { (s.max_samples - len) as nat };
    vstd::arithmetic::div_mod::lemma_add_mod_noop(len as int, n as int, cc as int);
    vstd::arithmetic::div_mod::lemma_small_mod(0, cc);
    if n > available {
        lemma_round_up((n - available) as nat, cc);
    }
    let d = s.overflow_drop(n);
    assert(d % cc == 0);
    vstd::arithmetic::div_mod::lemma_sub_mod_noop((len + n) as int, d as int, cc as int);
    let m: nat = if max <= len { max } else { len };
    lemma_round_down(m, cc);
    vstd::arithmetic::div_mod::lemma_sub_mod_noop(len as int, s.drain_amount(max) as int, cc as int);
}

/// The counters only count up: a drain leaves both as they are, a push
/// leaves the underflow counter and advances the overflow counter by the
/// samples it dropped, never below its old value unless it wraps past
/// `u64::MAX`.
pub proof fn lemma_counters_only_grow<T>(s: StreamState<T>, incoming: Seq<T>, max: nat)
    requires
        s.wf(),
    ensures
        s.drained(max).underflows == s.underflows,
        s.drained(max).overflows == s.overflows,
        s.pushed(incoming).underflows == s.underflows,
        s.overflows + s.overflow_drop(incoming.len()) <= u64::MAX ==> s.pushed(incoming).overflows
            == s.overflows + s.overflow_drop(incoming.len()),
        s.overflows + s.overflow_drop(incoming.len()) <= u64::MAX ==> s.pushed(incoming).overflows
            >= s.overflows,
{
    let d = s.overflow_drop(incoming.len());
    if s.overflows + d <= u64::MAX {
        vstd::arithmetic::div_mod::lemma_small_mod((s.overflows + d) as nat, 0x1_0000_0000_0000_0000nat);
    }
}

/// A fill leaves the overflow counter as it is and, once playback has
/// started, advances the underflow counter by the frames it found missing:
/// never below its old value unless it wraps past `u64::MAX`. Before
/// playback starts a fill counts nothing.
pub proof fn lemma_fill_counts_underflows<T>(s: StreamState<T>, pending: Seq<T>, frames: nat)
    requires
        s.wf(),
    ensures
        s.after_fill(pending, frames).overflows == s.overflows,
        !s.started ==> s.after_fill(pending, frames).underflows == s.underflows,
        s.started ==> s.after_fill(pending, frames).underflows == counter_after(
            s.underflows,
            s.missing_frames(pending, frames),
        ),
        s.started && s.underflows + s.missing_frames(pending, frames) <= u64::MAX ==> s.after_fill(
            pending,
            frames,
        ).underflows == s.underflows + s.missing_frames(pending, frames),
        s.after_fill(pending, frames).underflows >= s.underflows || s.underflows + s.missing_frames(
            pending,
            frames,
        ) > u64::MAX,
{
    let m = s.missing_frames(pending, frames);
    if s.underflows + m <= u64::MAX {
        vstd::arithmetic::div_mod::lemma_small_mod((s.underflows + m) as nat, 0x1_0000_0000_0000_0000nat);
    }
}

/// Advancing a wrapping counter by `a` events and then by `b` is advancing
/// it by `a + b`.
pub proof fn lemma_counter_add(count: u64, a: nat, b: nat)
    ensures
        counter_after(counter_after(count, a), b) == counter_after(count, a + b),
{
    let m: int = 0x1_0000_0000_0000_0000int;
    let x = counter_after(count, a);
    vstd::arithmetic::div_mod::lemma_mod_pos_bound(count + a, m);
    vstd::arithmetic::div_mod::lemma_add_mod_noop(count + a, b as int, m);
    vstd::arithmetic::div_mod::lemma_add_mod_noop(x as int, b as int, m);
    vstd::arithmetic::div_mod::lemma_small_mod(x as nat, m as nat);
}

/// One operation on a stream's shared buffer, as the operations' contracts
/// describe its effect.
pub enum StreamOp<T> {
    /// A push of these samples (`push_samples`, `push_mono`, `push_stereo_interleaved`).
    Push(Seq<T>),
    /// A drain of at most this many samples (`drain_into`).
    Drain(nat),
    /// A fill of this many frames by a consumer holding these samples (`fill_buffers`).
    Fill(Seq<T>, nat),
    /// Playback forced on (`start_playback`).
    Start,
}

/// The state after one operation.
pub open spec fn apply<T>(s: StreamState<T>, op: StreamOp<T>) -> StreamState<T> {
    match op {
        StreamOp::Push(incoming) => s.pushed(incoming),
        StreamOp::Drain(max) => s.drained(max),
        StreamOp::Fill(pending, frames) => s.after_fill(pending, frames),
        StreamOp::Start => StreamState { started: true, ..s },
    }
}

/// The state after a sequence of operations, first to last.
pub open spec fn run<T>(s: StreamState<T>, ops: Seq<StreamOp<T>>) -> StreamState<T>
    decreases ops.len(),
{
    if ops.len() == 0 {
        s
    } else {
        run(apply(s, ops[0]), ops.skip(1))
    }
}

/// Samples one operation discards because the buffer is full.
pub open spec fn op_drops<T>(s: StreamState<T>, op: StreamOp<T>) -> nat {
    match op {
        StreamOp::Push(incoming) => s.overflow_drop(incoming.len()),
        _ => 0,
    }
}

/// Frames one operation finds missing.
pub open spec fn op_misses<T>(s: StreamState<T>, op: StreamOp<T>) -> nat {
    match op {
        StreamOp::Fill(pending, frames) => if s.started {
            s.missing_frames(pending, frames)
        } else {
            0
        },
        _ => 0,
    }
}

/// Samples a sequence of operations discards because the buffer is full.
pub open spec fn total_drops<T>(s: StreamState<T>, ops: Seq<StreamOp<T>>) -> nat
    decreases ops.len(),
{
    if ops.len() == 0 {
        0
    } else {
        op_drops(s, ops[0]) + total_drops(apply(s, ops[0]), ops.skip(1))
    }
}

/// Frames a sequence of operations finds missing.
pub open spec fn total_misses<T>(s: StreamState<T>, ops: Seq<StreamOp<T>>) -> nat
    decreases ops.len(),
{
    if ops.len() == 0 {
        0
    } else {
        op_misses(s, ops[0]) + total_misses(apply(s, ops[0]), ops.skip(1))
    }
}

/// One operation keeps the buffer's bound, threshold, rate and frame size,
/// and advances each counter by what it counts.
pub proof fn lemma_op_step<T>(s: StreamState<T>, op: StreamOp<T>)
    requires
        s.wf(),
    ensures
        apply(s, op).wf(),
        apply(s, op).same_shape(s),
        apply(s, op).overflows == counter_after(s.overflows, op_drops(s, op)),
        apply(s, op).underflows == counter_after(s.underflows, op_misses(s, op)),
{
    crate::stream::lemma_counter_step(s.overflows, 0);
    crate::stream::lemma_counter_step(s.underflows, 0);
}

/// The counters are cumulative over any sequence of operations: each has
/// advanced by everything counted along the way, and so has only grown
/// unless it wrapped past `u64::MAX`. The buffer's bound, threshold, rate
/// and frame size never change.
pub proof fn lemma_counters_accumulate<T>(s: StreamState<T>, ops: Seq<StreamOp<T>>)
    requires
        s.wf(),
    ensures
        run(s, ops).wf(),
        run(s, ops).same_shape(s),
        run(s, ops).overflows == counter_after(s.overflows, total_drops(s, ops)),
        run(s, ops).underflows == counter_after(s.underflows, total_misses(s, ops)),
        s.overflows + total_drops(s, ops) <= u64::MAX ==> run(s, ops).overflows == s.overflows
            + total_drops(s, ops),
        s.underflows + total_misses(s, ops) <= u64::MAX ==> run(s, ops).underflows == s.underflows
            + total_misses(s, ops),
    decreases ops.len(),
{
    if ops.len() == 0 {
        crate::stream::lemma_counter_step(s.overflows, 0);
        crate::stream::lemma_counter_step(s.underflows, 0);
    } else {
        let next = apply(s, ops[0]);
        lemma_op_step(s, ops[0]);
        lemma_counters_accumulate(next, ops.skip(1));
        lemma_counter_add(s.overflows, op_drops(s, ops[0]), total_drops(next, ops.skip(1)));
        lemma_counter_add(s.underflows, op_misses(s, ops[0]), total_misses(next, ops.skip(1)));
    }
    let d = total_drops(s, ops);
    let u = total_misses(s, ops);
    if s.overflows + d <= u64::MAX {
        vstd::arithmetic::div_mod::lemma_small_mod((s.overflows + d) as nat, 0x1_0000_0000_0000_0000nat);
    }
    if s.underflows + u <= u64::MAX {
        vstd::arithmetic::div_mod::lemma_small_mod((s.underflows + u) as nat, 0x1_0000_0000_0000_0000nat);
    }
}

/// A stream's settings never change: after any sequence of pushes, drains,
/// fills and forced starts, the buffer still has exactly the frame size,
/// sample rate, bound and threshold that the stream's settings give, so the
/// stream stays consistent with them.
pub proof fn lemma_settings_never_change<T: Copy>(
    stream: &LiveAudioStream<T>,
    ops: Seq<StreamOp<T>>,
)
    requires
        stream.wf(),
    ensures
        ({
            let c = stream.config();
            let cc = c.channels.spec_count();
            let after = run(stream@, ops);
            &&& after.wf()
            &&& after.channels == cc
            &&& after.sample_rate == c.sample_rate
            &&& after.max_samples == crate::stream::samples_for(
                c.sample_rate,
                c.max_buffer_duration_ms,
                cc,
            )
            &&& after.threshold == crate::stream::samples_for(
                c.sample_rate,
                c.start_threshold_ms,
                cc,
            )
        }),
{
    stream.lemma_wf_shape();
    lemma_counters_accumulate(stream@, ops);
}

/// Playback start latches: a push starts the stream exactly when it was
/// started before or the buffer now reaches the threshold, and neither a
/// push nor a drain ever stops it.
pub proof fn lemma_start_latches<T>(s: StreamState<T>, incoming: Seq<T>, max: nat)
    ensures
        s.pushed(incoming).started == (s.started || s.pushed(incoming).samples.len()
            >= s.threshold),
        s.started ==> s.pushed(incoming).started,
        s.drained(max).started == s.started,
{
}

/// Samples come out in the order they went in: from a buffer of whole
/// frames, a push that fits followed by a drain of everything hands out the
/// old contents followed by the pushed samples, and leaves the buffer empty.
pub proof fn lemma_push_then_drain<T>(s: StreamState<T>, incoming: Seq<T>, max: nat)
    requires
        s.wf(),
        s.samples.len() + incoming.len() <= s.max_samples,
        s.samples.len() % s.channels == 0,
        incoming.len() % s.channels == 0,
        max >= s.samples.len() + incoming.len(),
    ensures
        s.pushed(incoming).drain_output(max) == s.samples + incoming,
        s.pushed(incoming).drained(max).samples.len() == 0,
{
    lemma_push_within_room(s, incoming);
    lemma_frames_stay_whole(s, incoming, max);
    let p = s.pushed(incoming);
    let len = p.samples.len();
    vstd::arithmetic::div_mod::lemma_fundamental_div_mod(len as int, p.channels as int);
    vstd::arithmetic::mul::lemma_mul_is_commutative((len / p.channels) as int, p.channels as int);
    assert(p.drain_amount(max) == len);
    assert(p.drain_output(max) =~= p.samples);
}

/// A fill never serves more frames than asked for or than the samples
/// available cover; it serves every frame when whole frames for all of them
/// are available, and none when not even one is.
pub proof fn lemma_fill_frames(available: nat, channels: nat, frames: nat)
    requires
        channels >= 1,
    ensures
        frames_with_data(available, channels, frames) <= frames,
        frames_with_data(available, channels, frames) * channels <= available,
        available >= frames * channels ==> frames_with_data(available, channels, frames) == frames,
        available < channels ==> frames_with_data(available, channels, frames) == 0,
{
    let q = available / channels;
    let k = frames_with_data(available, channels, frames);
    lemma_round_down(available, channels);
    if k < q {
        vstd::arithmetic::mul::lemma_mul_inequality(k as int, q as int, channels as int);
    }
    if available >= frames * channels {
        crate::stream::lemma_frame_fits(available, channels, (frames - 1) as nat);
        if frames > 0 {
            vstd::arithmetic::mul::lemma_mul_is_distributive_add_other_way(channels as int, (frames - 1) as int, 1);
        }
    }
    if available < channels {
        assert(available / channels == 0) by {
            vstd::arithmetic::div_mod::lemma_basic_div(available as int, channels as int);
        }
    }
}

/// A consumer holding nothing reads the oldest samples of the shared buffer
/// in order: when the buffer holds at least the frames asked for, a fill
/// reads exactly the first frames' samples and serves every frame.
pub proof fn lemma_fill_reads_oldest<T>(s: StreamState<T>, frames: nat)
    requires
        s.wf(),
        s.samples.len() >= frames * s.channels,
    ensures
        fill_source(Seq::<T>::empty(), s, frames) == s.samples.take((frames * s.channels) as int),
        frames_with_data(fill_source(Seq::<T>::empty(), s, frames).len(), s.channels, frames)
            == frames,
{
    let cc = s.channels;
    let want = frames * cc;
    vstd::arithmetic::mul::lemma_mul_nonnegative(frames as int, cc as int);
    vstd::arithmetic::div_mod::lemma_div_multiples_vanish(frames as int, cc as int);
    vstd::arithmetic::mul::lemma_mul_is_commutative(frames as int, cc as int);
    if want > 0 {
        assert(s.drain_amount(want) == want);
    } else {
        lemma_round_down(0, cc);
    }
    assert(fill_source(Seq::<T>::empty(), s, frames) =~= s.samples.take(want as int));
    lemma_fill_frames(want, cc, frames);
}

/// The consumer neither loses nor reorders samples: after a started fill,
/// what it still holds followed by what the shared buffer still holds is
/// everything both held before, less the frames it wrote out.
pub proof fn lemma_fill_keeps_order<T>(pending: Seq<T>, s: StreamState<T>, frames: nat)
    requires
        s.wf(),
    ensures
        ({
            let want = pull_request(pending.len(), frames * s.channels);
            let source = fill_source(pending, s, frames);
            let used = frames_with_data(source.len(), s.channels, frames) * s.channels;
            source.skip(used as int) + s.drained(want).samples == (pending + s.samples).skip(
                used as int,
            )
        }),
{
    let want = pull_request(pending.len(), frames * s.channels);
    let source = fill_source(pending, s, frames);
    let used = frames_with_data(source.len(), s.channels, frames) * s.channels;
    let n: nat = if want <= s.samples.len() { want } else { s.samples.len() };
    lemma_round_down(n, s.channels);
    lemma_fill_frames(source.len(), s.channels, frames);
    assert(source.skip(used as int) + s.drained(want).samples =~= (pending + s.samples).skip(
        used as int,
    ));
}

/// A push drops no more than it must: a push that fits drops nothing, and
/// one that overflows a buffer within its bound drops the excess over the
/// bound rounded up to the next whole frame, or everything there is if that
/// is less; never fewer than the excess, and less than a frame more.
pub proof fn lemma_push_drops_least<T>(s: StreamState<T>, incoming: Seq<T>)
    requires
        s.wf(),
        s.samples.len() <= s.max_samples,
    ensures
        ({
            let len = s.samples.len();
            let n = incoming.len();
            let c = s.channels;
            let d = s.overflow_drop(n);
            &&& d <= len + n
            &&& len + n <= s.max_samples ==> d == 0
            &&& len + n > s.max_samples ==> len + n - s.max_samples <= d < len + n - s.max_samples + c
            &&& d % c == 0 || d == len + n
        }),
{
    let len = s.samples.len();
    let n = incoming.len();
    let available = (s.max_samples - len) as nat;
    if n > available {
        lemma_round_up((n - available) as nat, s.channels);
    } else {
        vstd::arithmetic::div_mod::lemma_small_mod(0, s.channels);
    }
}

/// Whole frames fill the buffer up to its bound: from a buffer within a
/// whole-frame bound, a push of whole frames drops exactly the excess over
/// the bound, so the buffer then holds everything or exactly the bound.
pub proof fn lemma_push_fills_to_bound<T>(s: StreamState<T>, incoming: Seq<T>)
    requires
        s.wf(),
        s.samples.len() <= s.max_samples,
        s.samples.len() % s.channels == 0,
        incoming.len() % s.channels == 0,
        s.max_samples % s.channels == 0,
    ensures
        ({
            let len = s.samples.len();
            let n = incoming.len();
            &&& s.overflow_drop(n) == (if len + n <= s.max_samples {
                0
            } else {
                (len + n - s.max_samples) as nat
            })
            &&& s.pushed(incoming).samples.len() == (if len + n <= s.max_samples {
                len + n
            } else {
                s.max_samples
            })
        }),
{
    let len = s.samples.len();
    let n = incoming.len();
    let c = s.channels;
    lemma_push_drops_least(s, incoming);
    if len + n > s.max_samples {
        let e = (len + n - s.max_samples) as nat;
        let d = s.overflow_drop(n);
        vstd::arithmetic::div_mod::lemma_add_mod_noop(len as int, n as int, c as int);
        vstd::arithmetic::div_mod::lemma_sub_mod_noop((len + n) as int, s.max_samples as int, c as int);
        vstd::arithmetic::div_mod::lemma_small_mod(0, c);
        assert(e % c == 0);
        if d % c == 0 {
            vstd::arithmetic::div_mod::lemma_sub_mod_noop(d as int, e as int, c as int);
            vstd::arithmetic::div_mod::lemma_small_mod((d - e) as nat, c);
        } else {
            assert(d == len + n);
            assert(s.max_samples < c);
            vstd::arithmetic::div_mod::lemma_small_mod(s.max_samples, c);
        }
        assert(d == e);
    }
}

/// A drain takes as many whole frames as it may: a multiple of the frame
/// size, at most what is asked for and what is buffered, and less than a
/// frame short of the lesser of the two. The oldest samples go, in order.
pub proof fn lemma_drain_takes_whole_frames<T>(s: StreamState<T>, max: nat)
    requires
        s.wf(),
    ensures
        ({
            let a = s.drain_amount(max);
            let m: nat = if max <= s.samples.len() { max } else { s.samples.len() };
            &&& a % s.channels == 0
            &&& a <= m
            &&& m < a + s.channels
            &&& s.drain_output(max) == s.samples.take(a as int)
            &&& s.drained(max).samples == s.samples.skip(a as int)
        }),
{
    let m: nat = if max <= s.samples.len() { max } else { s.samples.len() };
    lemma_round_down(m, s.channels);
}

/// A started fill serves as many frames as the samples allow: never more
/// than asked for nor than whole frames of the samples cover, and it stops
/// short of the frames asked for only when not one more whole frame is
/// left; so it serves all frames when whole frames for all of them are
/// there, and `available / channels` frames otherwise.
pub proof fn lemma_fill_serves_all_it_can(available: nat, channels: nat, frames: nat)
    requires
        channels >= 1,
    ensures
        ({
            let k = frames_with_data(available, channels, frames);
            &&& k <= frames
            &&& k * channels <= available
            &&& k == frames || available < (k + 1) * channels
            &&& k == (if available >= frames * channels { frames } else { available / channels })
        }),
{
    let k = frames_with_data(available, channels, frames);
    lemma_fill_frames(available, channels, frames);
    lemma_round_down(available, channels);
    vstd::arithmetic::mul::lemma_mul_is_distributive_add_other_way(channels as int, k as int, 1);
    if available < frames * channels && frames <= available / channels {
        vstd::arithmetic::mul::lemma_mul_inequality(frames as int, (available / channels) as int, channels as int);
    }
}

/// A started fill plays everything it can reach: when the consumer holds
/// whole frames, it serves the frames asked for, or as many whole frames as
/// it holds and the shared buffer has between them if that is fewer, and
/// counts one underflow for each frame it could not serve.
pub proof fn lemma_fill_serves_held_and_buffered<T>(s: StreamState<T>, pending: Seq<T>, frames: nat)
    requires
        s.wf(),
        pending.len() % s.channels == 0,
    ensures
        ({
            let c = s.channels;
            let total = pending.len() + s.samples.len();
            let k = frames_with_data(fill_source(pending, s, frames).len(), c, frames);
            let served = if total >= frames * c { frames } else { total / c };
            &&& k == served
            &&& s.missing_frames(pending, frames) == frames - served
            &&& s.started ==> s.after_fill(pending, frames).underflows == counter_after(
                s.underflows,
                (frames - served) as nat,
            )
        }),
{
    let c = s.channels;
    let p = pending.len();
    let sl = s.samples.len();
    let need = frames * c;
    let want = pull_request(p, need);
    let source = fill_source(pending, s, frames);
    vstd::arithmetic::mul::lemma_mul_nonnegative(frames as int, c as int);
    lemma_fill_serves_all_it_can(source.len(), c, frames);
    lemma_fill_serves_all_it_can(p + sl, c, frames);
    if p >= need {
        lemma_round_down(0, c);
        assert(source.len() == p);
    } else {
        let m: nat = if want <= sl { want } else { sl };
        lemma_round_down(m, c);
        vstd::arithmetic::div_mod::lemma_sub_mod_noop(need as int, p as int, c as int);
        vstd::arithmetic::div_mod::lemma_mod_multiples_basic(frames as int, c as int);
        vstd::arithmetic::mul::lemma_mul_is_commutative(frames as int, c as int);
        vstd::arithmetic::div_mod::lemma_small_mod(0, c);
        assert(want % c == 0);
        if want <= sl {
            lemma_round_down(want, c);
            vstd::arithmetic::div_mod::lemma_fundamental_div_mod(want as int, c as int);
            vstd::arithmetic::mul::lemma_mul_is_commutative((want / c) as int, c as int);
            assert(want / c * c == want);
            assert(s.drain_amount(want) == want);
            assert(source.len() == need);
        } else {
            let q = sl / c;
            let a = p / c;
            vstd::arithmetic::div_mod::lemma_fundamental_div_mod(p as int, c as int);
            vstd::arithmetic::div_mod::lemma_fundamental_div_mod(sl as int, c as int);
            vstd::arithmetic::div_mod::lemma_mod_pos_bound(sl as int, c as int);
            vstd::arithmetic::mul::lemma_mul_is_commutative(a as int, c as int);
            vstd::arithmetic::mul::lemma_mul_is_commutative(q as int, c as int);
            vstd::arithmetic::mul::lemma_mul_is_distributive_add_other_way(c as int, a as int, q as int);
            assert(source.len() == p + q * c);
            assert(p + q * c == (a + q) * c + 0);
            assert(p + sl == (a + q) * c + sl % c);
            vstd::arithmetic::div_mod::lemma_fundamental_div_mod_converse(
                (p + q * c) as int,
                c as int,
                (a + q) as int,
                0,
            );
            vstd::arithmetic::div_mod::lemma_fundamental_div_mod_converse(
                (p + sl) as int,
                c as int,
                (a + q) as int,
                (sl % c) as int,
            );
        }
    }
}

/// A duration's sample count is whole frames: exactly the frames that fit
/// in that many milliseconds at that rate, with a partial frame left out.
pub proof fn lemma_duration_in_whole_frames(sample_rate: u32, duration_ms: u32, channels: nat)
    requires
        channels >= 1,
    ensures
        ({
            let n = crate::stream::samples_for(sample_rate, duration_ms, channels);
            let f = n / channels;
            &&& n == f * channels
            &&& f * 1000 <= sample_rate * duration_ms < (f + 1) * 1000
        }),
{
    let x = (sample_rate * duration_ms) as nat;
    let f = x / 1000;
    lemma_round_down(x, 1000);
    vstd::arithmetic::mul::lemma_mul_is_distributive_add_other_way(1000, f as int, 1);
    vstd::arithmetic::mul::lemma_mul_nonnegative(f as int, channels as int);
    vstd::arithmetic::mul::lemma_mul_is_commutative(f as int, channels as int);
    vstd::arithmetic::div_mod::lemma_div_multiples_vanish(f as int, channels as int);
}

/// The audio systems run in one chain: every set but the first runs right
/// after the set ranked just before it, and only the first has no
/// predecessor.
pub proof fn lemma_systems_form_chain(set: SeedlingSystems)
    ensures
        set.spec_runs_after() is None <==> set == SeedlingSystems::Acquire,
        set.spec_runs_after() matches Some(prev) ==> prev.rank() + 1 == set.rank(),
{
}

} // verus!
