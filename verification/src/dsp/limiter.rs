//! The look-ahead of the limiter: the peak over a window that reaches from the incoming frame back
//! to the frame that goes out.

use vstd::prelude::*;
use std::collections::VecDeque;
use crate::dsp::arith::{apply, Calc};
use crate::dsp::delay::{silence, Ring};
use crate::float_bits::{bits_magnitude, is_undefined, less_than, ONE_BITS};

verus! {

/// The greatest value from place `from` on; zero where there is none.
pub open spec fn max_from(values: Seq<u32>, from: int) -> u32
    decreases values.len() - from,
{
    if !(0 <= from < values.len()) {
        0
    } else {
        let rest = max_from(values, from + 1);
        if values[from] > rest {
            values[from]
        } else {
            rest
        }
    }
}

/// The greatest value is at least each value and is one of them.
pub proof fn lemma_max_from(values: Seq<u32>, from: int)
    requires
        0 <= from <= values.len(),
    ensures
        forall|i: int| from <= i < values.len() ==> values[i] <= max_from(values, from),
        from < values.len() ==> exists|i: int|
            from <= i < values.len() && #[trigger] values[i] == max_from(values, from),
    decreases values.len() - from,
{
    if from < values.len() {
        lemma_max_from(values, from + 1);
        let rest = max_from(values, from + 1);
        if values[from] > rest {
            assert(values[from] == max_from(values, from));
        } else if from + 1 < values.len() {
            let i = choose|i: int| from + 1 <= i < values.len() && #[trigger] values[i] == rest;
            assert(values[i] == max_from(values, from));
        } else {
            assert(values[from] == max_from(values, from));
        }
    }
}

/// Where the window of the last of so many values begins.
pub open spec fn window_start(count: int, lookahead: int) -> int {
    if count - 1 - lookahead < 0 {
        0
    } else {
        count - 1 - lookahead
    }
}

/// The greatest value among the last and the `lookahead` values before it.
pub open spec fn window_peak(values: Seq<u32>, lookahead: int) -> u32 {
    max_from(values, window_start(values.len() as int, lookahead))
}

/// The running peak over a window, without looking at the whole window for each value.
pub struct PeakWindow {
    lookahead: u64,
    /// Places and values, both in order: the places rise and the values fall.
    peaks: VecDeque<(u64, u32)>,
    count: u64,
    values: Ghost<Seq<u32>>,
}

/// The entries stand for values, in rising places and with falling values.
spec fn descending(peaks: Seq<(u64, u32)>, values: Seq<u32>) -> bool {
    &&& forall|k: int|
        0 <= k < peaks.len() ==> (#[trigger] peaks[k]).0 < values.len() && peaks[k].1
            == values[peaks[k].0 as int]
    &&& forall|j: int, k: int|
        0 <= j < k < peaks.len() ==> (#[trigger] peaks[j]).0 < (#[trigger] peaks[k]).0
    &&& forall|j: int, k: int|
        0 <= j < k < peaks.len() ==> (#[trigger] peaks[j]).1 > (#[trigger] peaks[k]).1
}

/// The value at a place is matched by an entry that does not leave the window before it.
spec fn covered(peaks: Seq<(u64, u32)>, values: Seq<u32>, at: int) -> bool {
    exists|k: int|
        0 <= k < peaks.len() && (#[trigger] peaks[k]).0 >= at && peaks[k].1 >= values[at]
}

impl View for PeakWindow {
    type V = Seq<u32>;

    /// All values so far.
    closed spec fn view(&self) -> Seq<u32> {
        self.values@
    }
}

impl PeakWindow {
    /// How many values before the last belong to the window.
    pub closed spec fn reach(&self) -> int {
        self.lookahead as int
    }

    /// The entries match every value of the window.
    pub closed spec fn wf(&self) -> bool {
        &&& self.count == self.values@.len()
        &&& descending(self.peaks@, self.values@)
        &&& forall|at: int|
            window_start(self.count as int, self.lookahead as int) <= at < self.count ==> #[trigger]
                covered(self.peaks@, self.values@, at)
    }

    /// An empty window.
    pub fn new(lookahead: u64) -> (r: PeakWindow)
        ensures
            r.wf(),
            r@ == Seq::<u32>::empty(),
            r.reach() == lookahead,
    {
        PeakWindow {
            lookahead,
            peaks: VecDeque::new(),
            count: 0,
            values: Ghost(Seq::empty()),
        }
    }

    /// Takes a value; the result is the greatest value in the window that it ends.
    pub fn push(&mut self, value: u32) -> (r: u32)
        requires
            old(self).wf(),
            old(self)@.len() < u64::MAX,
        ensures
            final(self).wf(),
            final(self).reach() == old(self).reach(),
            final(self)@ == old(self)@.push(value),
            r == window_peak(final(self)@, final(self).reach()),
    {
        let at: u64 = self.count;
        let oldest: u64 = if at > self.lookahead {
            at - self.lookahead
        } else {
            0
        };
        let ghost values = self.values@;
        let ghost all = values.push(value);
        let ghost lookahead = self.lookahead;
        assert(window_start(at as int, lookahead as int) <= oldest);
        while self.peaks.len() > 0
            invariant_except_break
                true,
            invariant
                self.lookahead == lookahead,
                self.count == at,
                self.values@ == values,
                at == values.len(),
                descending(self.peaks@, values),
                forall|i: int| oldest <= i < at ==> #[trigger] covered(self.peaks@, values, i),
            ensures
                self.peaks@.len() > 0 ==> self.peaks@[0].0 >= oldest,
            decreases self.peaks@.len(),
        {
            if self.peaks[0].0 >= oldest {
                break;
            }
            let ghost before = self.peaks@;
            let _ = self.peaks.pop_front();
            proof {
                assert(self.peaks@ =~= before.subrange(1, before.len() as int));
                assert forall|i: int| oldest <= i < at implies #[trigger] covered(
                    self.peaks@,
                    values,
                    i,
                ) by {
                    assert(covered(before, values, i));
                    let k = choose|k: int|
                        0 <= k < before.len() && (#[trigger] before[k]).0 >= i && before[k].1
                            >= values[i];
                    assert(self.peaks@[k - 1] == before[k]);
                }
            }
        }
        while self.peaks.len() > 0
            invariant_except_break
                true,
            invariant
                self.lookahead == lookahead,
                self.count == at,
                self.values@ == values,
                at == values.len(),
                descending(self.peaks@, values),
                self.peaks@.len() > 0 ==> self.peaks@[0].0 >= oldest,
                forall|i: int|
                    oldest <= i < at ==> #[trigger] covered(self.peaks@, values, i) || values[i]
                        <= value,
            ensures
                self.peaks@.len() > 0 ==> self.peaks@.last().1 > value,
            decreases self.peaks@.len(),
        {
            let n: usize = self.peaks.len();
            if self.peaks[n - 1].1 > value {
                break;
            }
            let ghost before = self.peaks@;
            let _ = self.peaks.pop_back();
            proof {
                assert(self.peaks@ =~= before.drop_last());
                assert forall|i: int| oldest <= i < at implies #[trigger] covered(
                    self.peaks@,
                    values,
                    i,
                ) || values[i] <= value by {
                    if covered(before, values, i) {
                        let k = choose|k: int|
                            0 <= k < before.len() && (#[trigger] before[k]).0 >= i && before[k].1
                                >= values[i];
                        if k < before.len() - 1 {
                            assert(self.peaks@[k] == before[k]);
                        }
                    }
                }
            }
        }
        let ghost kept = self.peaks@;
        self.peaks.push_back((at, value));
        self.count = at + 1;
        self.values = Ghost(all);
        proof {
            let now = self.peaks@;
            assert(now =~= kept.push((at, value)));
            assert(forall|i: int| 0 <= i < at ==> all[i] == values[i]);
            assert(now[kept.len() as int] == (at, value));
            assert forall|i: int| oldest <= i < at + 1 implies #[trigger] covered(
                now,
                all,
                i,
            ) by {
                if i == at {
                    assert(now[kept.len() as int].0 >= i);
                } else if covered(kept, values, i) {
                    let k = choose|k: int|
                        0 <= k < kept.len() && (#[trigger] kept[k]).0 >= i && kept[k].1
                            >= values[i];
                    assert(now[k] == kept[k]);
                } else {
                    assert(now[kept.len() as int].1 >= all[i]);
                }
            }
            assert(descending(now, all)) by {
                assert forall|j: int, k: int| 0 <= j < k < now.len() implies (
                #[trigger] now[j]).0 < (#[trigger] now[k]).0 && now[j].1 > now[k].1 by {
                    if k < kept.len() {
                        assert(kept[j].0 < kept[k].0 && kept[j].1 > kept[k].1);
                    } else {
                        assert(kept[j].0 < values.len());
                        if j < kept.len() - 1 {
                            assert(kept[j].1 > kept[kept.len() - 1].1);
                        }
                    }
                }
            }
            assert(window_start(at + 1, lookahead as int) == oldest);
            lemma_max_from(all, oldest as int);
            let top = max_from(all, oldest as int);
            let i = choose|i: int| oldest <= i < all.len() && #[trigger] all[i] == top;
            assert(covered(now, all, i));
            let k = choose|k: int|
                0 <= k < now.len() && (#[trigger] now[k]).0 >= i && now[k].1 >= all[i];
            if k > 0 {
                assert(now[0].1 > now[k].1);
            }
            assert(now[0].0 >= oldest);
            assert(now[0].1 == all[now[0].0 as int]);
            assert(all[now[0].0 as int] <= top);
        }
        self.peaks[0].1
    }
}

/// The size of a sample; one that is not a number has none.
pub open spec fn level(sample: u32) -> u32 {
    if crate::float_bits::undefined(sample) {
        0
    } else {
        crate::float_bits::magnitude(sample) as u32
    }
}

/// The sizes of the samples of a frame.
pub open spec fn levels(frame: Seq<u32>) -> Seq<u32> {
    frame.map_values(|s: u32| level(s))
}

/// The greatest size in a frame.
pub open spec fn frame_level(frame: Seq<u32>) -> u32 {
    max_from(levels(frame), 0)
}

/// The peak of a frame over its channels.
pub fn frame_peak(frame: &Vec<u32>) -> (r: u32)
    ensures
        r == frame_level(frame@),
{
    let mut peak: u32 = 0;
    let mut i: usize = frame.len();
    while i > 0
        invariant
            i <= frame@.len(),
            peak == max_from(levels(frame@), i as int),
        decreases i,
    {
        i -= 1;
        let s: u32 = frame[i];
        let v: u32 = if is_undefined(s) {
            0
        } else {
            bits_magnitude(s)
        };
        if v > peak {
            peak = v;
        }
    }
    peak
}

/// What the limiter knows of one frame: the peak over its window, and the frame that goes out.
#[derive(Debug, Clone, PartialEq, Eq)]
pub struct Ahead {
    pub peak: u32,
    pub delayed: Vec<u32>,
}

/// The memory of the limiter.
pub struct LookAhead {
    channels: usize,
    window: PeakWindow,
    frames: Ring<Vec<u32>>,
    seen: Ghost<Seq<Seq<u32>>>,
}

/// The peaks of frames.
pub open spec fn frame_levels(frames: Seq<Seq<u32>>) -> Seq<u32> {
    frames.map_values(|f: Seq<u32>| frame_level(f))
}

/// The frame that goes out with the last of the given frames: the one that came in `lookahead`
/// frames before it, or silence where there was none.
pub open spec fn outgoing(frames: Seq<Seq<u32>>, lookahead: int, channels: nat) -> Seq<u32> {
    if frames.len() > lookahead {
        frames[frames.len() - 1 - lookahead]
    } else {
        Seq::new(channels, |i: int| 0u32)
    }
}

impl View for LookAhead {
    type V = Seq<Seq<u32>>;

    /// All frames so far.
    closed spec fn view(&self) -> Seq<Seq<u32>> {
        self.seen@
    }
}

impl LookAhead {
    /// By how many frames the output is late.
    pub closed spec fn lookahead(&self) -> int {
        self.frames.past().len() as int
    }

    /// How many samples a frame has.
    pub closed spec fn width(&self) -> nat {
        self.channels as nat
    }

    /// The delay holds the last frames, and the window knows the peaks of all.
    pub closed spec fn wf(&self) -> bool {
        &&& self.frames.wf()
        &&& self.window.wf()
        &&& self.window.reach() == self.frames.past().len()
        &&& self.window@ == frame_levels(self.seen@)
        &&& forall|k: int|
            0 <= k < self.seen@.len() ==> (#[trigger] self.seen@[k]).len() == self.channels
        &&& forall|k: int|
            0 <= k < self.frames.past().len() ==> (#[trigger] self.frames.past()[k])@ == outgoing(
                self.seen@,
                k,
                self.channels as nat,
            )
    }

    /// The memory of a limiter that looks ahead by at least one frame, and has seen none.
    pub fn new(lookahead: usize, channels: usize) -> (r: LookAhead)
        requires
            lookahead >= 1,
        ensures
            r.wf(),
            r@ == Seq::<Seq<u32>>::empty(),
            r.lookahead() == lookahead,
            r.width() == channels,
    {
        let mut buf: Vec<Vec<u32>> = Vec::new();
        let mut i: usize = 0;
        while i < lookahead
            invariant
                i <= lookahead,
                buf@.len() == i,
                forall|k: int|
                    0 <= k < i ==> (#[trigger] buf@[k])@ == Seq::new(channels as nat, |j: int| 0u32),
            decreases lookahead - i,
        {
            buf.push(silence(channels));
            i += 1;
        }
        let frames = Ring::new(buf);
        let window = PeakWindow::new(lookahead as u64);
        assert(frame_levels(Seq::<Seq<u32>>::empty()) =~= Seq::<u32>::empty());
        LookAhead { channels, window, frames, seen: Ghost(Seq::empty()) }
    }

    /// Takes a frame. The result is the peak over the window from the frame that goes out to the
    /// one that came in, and the frame that goes out.
    pub fn advance(&mut self, frame: Vec<u32>) -> (r: Ahead)
        requires
            old(self).wf(),
            frame@.len() == old(self).width(),
            old(self)@.len() < u64::MAX,
        ensures
            final(self).wf(),
            final(self).lookahead() == old(self).lookahead(),
            final(self).width() == old(self).width(),
            final(self)@ == old(self)@.push(frame@),
            r.peak == window_peak(frame_levels(final(self)@), final(self).lookahead()),
            r.delayed@ == outgoing(final(self)@, final(self).lookahead(), final(self).width()),
            r.delayed@.len() == final(self).width(),
    {
        let n: usize = self.frames.len();
        let ghost seen = self.seen@;
        let ghost now = seen.push(frame@);
        let ghost before = self.frames.past();
        let value: u32 = frame_peak(&frame);
        proof {
            assert(frame_levels(seen).len() == seen.len());
            assert(frame_levels(now) =~= frame_levels(seen).push(value));
        }
        let peak: u32 = self.window.push(value);
        let delayed: Vec<u32> = self.frames.tap(n).clone();
        proof {
            assert(delayed@ =~= before[n - 1]@);
            assert(delayed@ == outgoing(seen, n - 1, self.channels as nat));
            assert(outgoing(now, n as int, self.channels as nat) =~= outgoing(
                seen,
                n - 1,
                self.channels as nat,
            ));
        }
        let ghost newest = frame;
        self.frames.push(frame);
        self.seen = Ghost(now);
        proof {
            let past = self.frames.past();
            assert forall|k: int| 0 <= k < past.len() implies (#[trigger] past[k])@ == outgoing(
                now,
                k,
                self.channels as nat,
            ) by {
                if k == 0 {
                    assert(past[0] == newest);
                } else {
                    assert(past[k] == before[k - 1]);
                    assert(before[k - 1]@ == outgoing(seen, k - 1, self.channels as nat));
                }
            }
        }
        Ahead { peak, delayed }
    }
}

/// The peak is never below what goes out: a gain that brings the peak down to a ceiling brings
/// every sample down to it.
pub proof fn law_the_peak_bounds_the_output(
    frames: Seq<Seq<u32>>,
    lookahead: int,
    channels: nat,
    i: int,
)
    requires
        frames.len() > 0,
        lookahead >= 0,
        0 <= i < outgoing(frames, lookahead, channels).len(),
    ensures
        level(outgoing(frames, lookahead, channels)[i]) <= window_peak(
            frame_levels(frames),
            lookahead,
        ),
{
    if frames.len() > lookahead {
        let at = frames.len() - 1 - lookahead;
        let f = frames[at];
        lemma_max_from(levels(f), 0);
        assert(levels(f)[i] == level(f[i]));
        lemma_max_from(frame_levels(frames), window_start(frames.len() as int, lookahead));
        assert(frame_levels(frames)[at] == frame_level(f));
    }
}

/// The state of the limiter.
pub struct LimiterView {
    pub enabled: bool,
    pub ceiling: u32,
    pub release: u32,
    pub gain: u32,
    pub lookahead: int,
    pub width: nat,
    /// All frames since the limiter was last prepared.
    pub frames: Seq<Seq<u32>>,
}

/// The gain that brings a peak down to the ceiling, and no more than one.
pub open spec fn target_gain(
    peak: u32,
    ceiling: u32,
    g: spec_fn(Calc, u32, u32) -> u32,
) -> u32 {
    if crate::float_bits::less(ceiling, peak) {
        g(Calc::Div, ceiling, peak)
    } else {
        ONE_BITS
    }
}

/// The gain of a frame: it is released towards one, and goes down to the target at once.
pub open spec fn frame_gain(
    gain: u32,
    release: u32,
    target: u32,
    g: spec_fn(Calc, u32, u32) -> u32,
) -> u32 {
    let released = g(Calc::Add, gain, g(Calc::Mul, g(Calc::Sub, ONE_BITS, gain), release));
    if crate::float_bits::less(target, released) {
        target
    } else {
        released
    }
}

/// The limiter behind a frame.
pub open spec fn limiter_next(
    s: LimiterView,
    frame: Seq<u32>,
    g: spec_fn(Calc, u32, u32) -> u32,
) -> LimiterView {
    let frames = s.frames.push(frame);
    let peak = window_peak(frame_levels(frames), s.lookahead);
    LimiterView {
        gain: frame_gain(s.gain, s.release, target_gain(peak, s.ceiling, g), g),
        frames,
        ..s
    }
}

/// The frame that goes out of the limiter in this state.
pub open spec fn limiter_out(s: LimiterView, g: spec_fn(Calc, u32, u32) -> u32) -> Seq<u32> {
    let out = outgoing(s.frames, s.lookahead, s.width);
    Seq::new(s.width, |c: int| g(Calc::Mul, out[c], s.gain))
}

/// One frame of an interleaved buffer.
pub open spec fn frame_at(buffer: Seq<u32>, channels: int, f: int) -> Seq<u32> {
    buffer.subrange(f * channels, f * channels + channels)
}

/// A buffer with one of its frames replaced.
pub open spec fn with_frame(buffer: Seq<u32>, channels: int, f: int, frame: Seq<u32>) -> Seq<u32> {
    Seq::new(
        buffer.len(),
        |i: int|
            if f * channels <= i < f * channels + channels {
                frame[i - f * channels]
            } else {
                buffer[i]
            },
    )
}

/// The limiter and the buffer behind the first `n` frames.
pub open spec fn limited_block(
    s: LimiterView,
    buffer: Seq<u32>,
    channels: int,
    n: nat,
    g: spec_fn(Calc, u32, u32) -> u32,
) -> (LimiterView, Seq<u32>)
    decreases n,
{
    if n == 0 {
        (s, buffer)
    } else {
        let (t, b) = limited_block(s, buffer, channels, (n - 1) as nat, g);
        let next = limiter_next(t, frame_at(b, channels, n - 1), g);
        (next, with_frame(b, channels, n - 1, limiter_out(next, g)))
    }
}

/// A limiter that starts anew, for a number of channels.
pub open spec fn restarted(s: LimiterView, channels: nat) -> LimiterView {
    LimiterView { gain: ONE_BITS, width: channels, frames: Seq::empty(), ..s }
}

/// The limiter and a block behind it: where it is off it passes the block through, and where the
/// number of channels changes it starts anew.
pub open spec fn limited(
    v: LimiterView,
    block: Seq<u32>,
    channels: int,
    g: spec_fn(Calc, u32, u32) -> u32,
) -> (LimiterView, Seq<u32>) {
    if !v.enabled || channels == 0 {
        (v, block)
    } else {
        limited_block(
            if v.width == channels {
                v
            } else {
                restarted(v, channels as nat)
            },
            block,
            channels,
            block.len() / (channels as nat),
            g,
        )
    }
}

/// A limiter that looks ahead, so that nothing comes out above its ceiling.
pub struct Limiter {
    enabled: bool,
    ceiling: u32,
    release: u32,
    gain: u32,
    lookahead: usize,
    ahead: LookAhead,
}

impl View for Limiter {
    type V = LimiterView;

    closed spec fn view(&self) -> LimiterView {
        LimiterView {
            enabled: self.enabled,
            ceiling: self.ceiling,
            release: self.release,
            gain: self.gain,
            lookahead: self.lookahead as int,
            width: self.ahead.width(),
            frames: self.ahead@,
        }
    }
}

impl Limiter {
    /// The memory is sound and looks ahead by at least one frame.
    pub closed spec fn wf(&self) -> bool {
        &&& self.ahead.wf()
        &&& self.lookahead >= 1
        &&& self.ahead.lookahead() == self.lookahead
    }

    /// A limiter that is switched on. The look-ahead, in frames, is at least one.
    pub fn new(ceiling: u32, release: u32, lookahead: usize, channels: usize) -> (r: Limiter)
        requires
            lookahead >= 1,
        ensures
            r.wf(),
            r@ == restarted(
                LimiterView {
                    enabled: true,
                    ceiling,
                    release,
                    gain: ONE_BITS,
                    lookahead: lookahead as int,
                    width: channels as nat,
                    frames: Seq::empty(),
                },
                channels as nat,
            ),
    {
        Limiter {
            enabled: true,
            ceiling,
            release,
            gain: ONE_BITS,
            lookahead,
            ahead: LookAhead::new(lookahead, channels),
        }
    }

    /// Starts anew for a format, which has at least one channel.
    pub fn prepare(&mut self, release: u32, lookahead: usize, channels: usize)
        requires
            lookahead >= 1,
        ensures
            final(self).wf(),
            final(self)@ == restarted(
                LimiterView { release, lookahead: lookahead as int, ..old(self)@ },
                (if channels < 1 {
                    1
                } else {
                    channels as int
                }) as nat,
            ),
    {
        let width: usize = if channels < 1 {
            1
        } else {
            channels
        };
        self.release = release;
        self.lookahead = lookahead;
        self.gain = ONE_BITS;
        self.ahead = LookAhead::new(lookahead, width);
    }

    /// Takes settings.
    pub fn set_params(&mut self, enabled: bool, ceiling: u32)
        ensures
            final(self).wf() == old(self).wf(),
            final(self)@ == (LimiterView { enabled, ceiling, ..old(self)@ }),
    {
        self.enabled = enabled;
        self.ceiling = ceiling;
    }

    /// Limits a block in place. A limiter that is off leaves it alone; one that meets another
    /// number of channels than it was prepared for starts anew.
    pub fn process<F: Fn(Calc, u32, u32) -> u32>(
        &mut self,
        buffer: &mut Vec<u32>,
        channels: usize,
        f: &F,
    )
        requires
            old(self).wf(),
            old(self)@.frames.len() + old(buffer)@.len() <= u64::MAX,
            crate::dsp::arith::callable(*f),
        ensures
            final(self).wf(),
            final(buffer)@.len() == old(buffer)@.len(),
            final(self)@.frames.len() <= old(self)@.frames.len() + old(buffer)@.len(),
            !old(self)@.enabled || channels == 0 ==> final(buffer)@ == old(buffer)@
                && final(self)@ == old(self)@,
            forall|g: spec_fn(Calc, u32, u32) -> u32| #[trigger]
                crate::dsp::arith::computes(*f, g) ==> limited(
                    old(self)@,
                    old(buffer)@,
                    channels as int,
                    g,
                ) == (final(self)@, final(buffer)@),
    {
        if !self.enabled || channels == 0 {
            return;
        }
        if self.ahead.channels != channels {
            self.gain = ONE_BITS;
            self.ahead = LookAhead::new(self.lookahead, channels);
        }
        let ghost start = self@;
        let frames: usize = buffer.len() / channels;
        let mut n: usize = 0;
        while n < frames
            invariant
                n <= frames,
                channels > 0,
                frames == buffer@.len() / (channels as nat),
                buffer@.len() == old(buffer)@.len(),
                self.wf(),
                self@.width == channels,
                self@.frames.len() == start.frames.len() + n,
                start.frames.len() + old(buffer)@.len() <= u64::MAX,
                crate::dsp::arith::callable(*f),
                forall|g: spec_fn(Calc, u32, u32) -> u32| #[trigger]
                    crate::dsp::arith::computes(*f, g) ==> limited_block(
                        start,
                        old(buffer)@,
                        channels as int,
                        n as nat,
                        g,
                    ) == (self@, buffer@),
            decreases frames - n,
        {
            let ghost before = self@;
            let ghost whole = buffer@;
            let len: usize = buffer.len();
            proof {
                crate::dsp::arith::lemma_frame_inside(n as int, len as int, channels as int);
                assert(n <= len) by (nonlinear_arith)
                    requires
                        n * channels + channels <= len,
                        channels >= 1,
                ;
            }
            let at: usize = n * channels;
            let frame = copy_frame(buffer, at, channels);
            assert(frame@ =~= frame_at(whole, channels as int, n as int));
            let a = self.ahead.advance(frame);
            let target: u32 = if less_than(self.ceiling, a.peak) {
                apply(f, Calc::Div, self.ceiling, a.peak)
            } else {
                ONE_BITS
            };
            let gap: u32 = apply(f, Calc::Sub, ONE_BITS, self.gain);
            let step: u32 = apply(f, Calc::Mul, gap, self.release);
            let released: u32 = apply(f, Calc::Add, self.gain, step);
            self.gain = if less_than(target, released) {
                target
            } else {
                released
            };
            write_frame(buffer, at, &a.delayed, self.gain, f);
            assert forall|g: spec_fn(Calc, u32, u32) -> u32| #[trigger]
                crate::dsp::arith::computes(*f, g) implies limited_block(
                start,
                old(buffer)@,
                channels as int,
                (n + 1) as nat,
                g,
            ) == (self@, buffer@) by {
                let next = limiter_next(before, frame_at(whole, channels as int, n as int), g);
                assert(self@ == next);
                assert(buffer@ =~= with_frame(
                    whole,
                    channels as int,
                    n as int,
                    limiter_out(next, g),
                ));
            }
            n += 1;
        }
    }
}

fn copy_frame(buffer: &Vec<u32>, at: usize, channels: usize) -> (r: Vec<u32>)
    requires
        at + channels <= buffer@.len(),
    ensures
        r@ == buffer@.subrange(at as int, at + channels),
{
    let mut out: Vec<u32> = Vec::new();
    let mut c: usize = 0;
    let n: usize = buffer.len();
    while c < channels
        invariant
            c <= channels,
            at + channels <= buffer@.len() == n,
            out@ == buffer@.subrange(at as int, at + c),
        decreases channels - c,
    {
        out.push(buffer[at + c]);
        c += 1;
        assert(out@ =~= buffer@.subrange(at as int, at + c));
    }
    out
}

fn write_frame<F: Fn(Calc, u32, u32) -> u32>(
    buffer: &mut Vec<u32>,
    at: usize,
    frame: &Vec<u32>,
    gain: u32,
    f: &F,
)
    requires
        at + frame@.len() <= old(buffer)@.len(),
        crate::dsp::arith::callable(*f),
    ensures
        final(buffer)@.len() == old(buffer)@.len(),
        forall|g: spec_fn(Calc, u32, u32) -> u32, i: int|
            #![trigger crate::dsp::arith::computes(*f, g), final(buffer)@[i]]
            crate::dsp::arith::computes(*f, g) && 0 <= i < old(buffer)@.len() ==> final(buffer)@[i]
                == (if at <= i < at + frame@.len() {
                g(Calc::Mul, frame@[i - at], gain)
            } else {
                old(buffer)@[i]
            }),
{
    let mut c: usize = 0;
    let n: usize = buffer.len();
    while c < frame.len()
        invariant
            c <= frame@.len(),
            at + frame@.len() <= buffer@.len() == n,
            buffer@.len() == old(buffer)@.len(),
            crate::dsp::arith::callable(*f),
            forall|g: spec_fn(Calc, u32, u32) -> u32, i: int|
                #![trigger crate::dsp::arith::computes(*f, g), buffer@[i]]
                crate::dsp::arith::computes(*f, g) && 0 <= i < buffer@.len() ==> buffer@[i] == (
                if at <= i < at + c {
                    g(Calc::Mul, frame@[i - at], gain)
                } else {
                    old(buffer)@[i]
                }),
        decreases frame@.len() - c,
    {
        let v: u32 = apply(f, Calc::Mul, frame[c], gain);
        buffer.set(at + c, v);
        c += 1;
    }
}

/// The gain of a frame is never above the one that brings the loudest sample ahead down to the
/// ceiling.
pub proof fn law_the_gain_is_down_before_the_peak(
    s: LimiterView,
    frame: Seq<u32>,
    g: spec_fn(Calc, u32, u32) -> u32,
)
    ensures
        !crate::float_bits::less(
            target_gain(
                window_peak(frame_levels(s.frames.push(frame)), s.lookahead),
                s.ceiling,
                g,
            ),
            limiter_next(s, frame, g).gain,
        ),
{
}

/// A limiter at rest, whose arithmetic knows that one less one is nothing, that nothing times
/// anything is nothing and that one and nothing is one, leaves a gain of one alone as long as no
/// peak is above the ceiling.
pub proof fn law_quiet_passages_are_left_alone(
    s: LimiterView,
    frame: Seq<u32>,
    g: spec_fn(Calc, u32, u32) -> u32,
)
    requires
        s.gain == ONE_BITS,
        !crate::float_bits::less(
            s.ceiling,
            window_peak(frame_levels(s.frames.push(frame)), s.lookahead),
        ),
        g(Calc::Sub, ONE_BITS, ONE_BITS) == 0,
        g(Calc::Mul, 0, s.release) == 0,
        g(Calc::Add, ONE_BITS, 0) == ONE_BITS,
    ensures
        limiter_next(s, frame, g).gain == ONE_BITS,
{
}

proof fn lemma_block_kept(
    s: LimiterView,
    buffer: Seq<u32>,
    channels: int,
    n: nat,
    g: spec_fn(Calc, u32, u32) -> u32,
)
    ensures
        limited_block(s, buffer, channels, n, g).1.len() == buffer.len(),
        limited_block(s, buffer, channels, n, g).0.width == s.width,
        limited_block(s, buffer, channels, n, g).0.enabled == s.enabled,
    decreases n,
{
    if n > 0 {
        lemma_block_kept(s, buffer, channels, (n - 1) as nat, g);
    }
}

/// What stands behind the frames that are limited does not matter to them.
proof fn lemma_front_block(
    s: LimiterView,
    a: Seq<u32>,
    b: Seq<u32>,
    channels: int,
    n: nat,
    g: spec_fn(Calc, u32, u32) -> u32,
)
    requires
        channels > 0,
        n * channels <= a.len(),
        s.width == channels,
    ensures
        limited_block(s, a + b, channels, n, g) == (
            limited_block(s, a, channels, n, g).0,
            limited_block(s, a, channels, n, g).1 + b,
        ),
    decreases n,
{
    if n > 0 {
        let m = (n - 1) as nat;
        assert(m * channels + channels == n * channels) by (nonlinear_arith)
            requires
                m + 1 == n,
        ;
        assert(0 <= m * channels) by (nonlinear_arith)
            requires
                channels > 0,
        ;
        lemma_front_block(s, a, b, channels, m, g);
        lemma_block_kept(s, a, channels, m, g);
        let (t, x) = limited_block(s, a, channels, m, g);
        assert(frame_at(x + b, channels, m as int) =~= frame_at(x, channels, m as int));
        let next = limiter_next(t, frame_at(x, channels, m as int), g);
        let out = limiter_out(next, g);
        assert(with_frame(x + b, channels, m as int, out) =~= with_frame(
            x,
            channels,
            m as int,
            out,
        ) + b);
    }
}

/// Frames behind others are limited as a block of their own would be behind those.
proof fn lemma_back_block(
    s: LimiterView,
    a: Seq<u32>,
    b: Seq<u32>,
    channels: int,
    front: nat,
    n: nat,
    g: spec_fn(Calc, u32, u32) -> u32,
)
    requires
        channels > 0,
        front * channels == a.len(),
        n * channels <= b.len(),
        s.width == channels,
    ensures
        ({
            let (t, x) = limited_block(s, a, channels, front, g);
            let (u, y) = limited_block(t, b, channels, n, g);
            limited_block(s, a + b, channels, front + n, g) == (u, x + y)
        }),
    decreases n,
{
    let (t, x) = limited_block(s, a, channels, front, g);
    lemma_block_kept(s, a, channels, front, g);
    if n == 0 {
        lemma_front_block(s, a, b, channels, front, g);
    } else {
        let m = (n - 1) as nat;
        assert(m * channels + channels == n * channels) by (nonlinear_arith)
            requires
                m + 1 == n,
        ;
        assert(0 <= m * channels) by (nonlinear_arith)
            requires
                channels > 0,
        ;
        assert((front + m) * channels == a.len() + m * channels) by (nonlinear_arith)
            requires
                front * channels == a.len(),
        ;
        lemma_back_block(s, a, b, channels, front, m, g);
        lemma_block_kept(t, b, channels, m, g);
        let (u, y) = limited_block(t, b, channels, m, g);
        let at = (front + m) as int;
        assert((front + n - 1) as nat == front + m);
        assert(frame_at(x + y, channels, at) =~= frame_at(y, channels, m as int));
        let next = limiter_next(u, frame_at(y, channels, m as int), g);
        let out = limiter_out(next, g);
        assert(with_frame(x + y, channels, at, out) =~= x + with_frame(
            y,
            channels,
            m as int,
            out,
        ));
    }
}

/// How the audio is cut into blocks does not matter: two blocks of whole frames, one behind the
/// other, come out as the one block that they make together, and leave the limiter as it does.
pub proof fn law_blocks_may_be_cut_anywhere(
    v: LimiterView,
    a: Seq<u32>,
    b: Seq<u32>,
    channels: int,
    g: spec_fn(Calc, u32, u32) -> u32,
)
    requires
        channels >= 0,
        channels > 0 ==> a.len() as int % channels == 0 && b.len() as int % channels == 0,
    ensures
        ({
            let (v1, x) = limited(v, a, channels, g);
            let (v2, y) = limited(v1, b, channels, g);
            &&& limited(v, a + b, channels, g) == (v2, x + y)
            &&& x.len() == a.len()
            &&& y.len() == b.len()
        }),
{
    if v.enabled && channels > 0 {
        let s = if v.width == channels {
            v
        } else {
            restarted(v, channels as nat)
        };
        let na = a.len() / (channels as nat);
        let nb = b.len() / (channels as nat);
        vstd::arithmetic::div_mod::lemma_fundamental_div_mod(a.len() as int, channels);
        vstd::arithmetic::div_mod::lemma_fundamental_div_mod(b.len() as int, channels);
        assert(na * channels == a.len()) by (nonlinear_arith)
            requires
                a.len() as int == channels * na,
        ;
        assert(nb * channels == b.len()) by (nonlinear_arith)
            requires
                b.len() as int == channels * nb,
        ;
        assert((na + nb) * channels == a.len() + b.len()) by (nonlinear_arith)
            requires
                na * channels == a.len(),
                nb * channels == b.len(),
        ;
        vstd::arithmetic::div_mod::lemma_fundamental_div_mod_converse(
            (a + b).len() as int,
            channels,
            (na + nb) as int,
            0,
        );
        lemma_block_kept(s, a, channels, na, g);
        lemma_block_kept(limited_block(s, a, channels, na, g).0, b, channels, nb, g);
        lemma_back_block(s, a, b, channels, na, nb, g);
    }
}

} // verus!
