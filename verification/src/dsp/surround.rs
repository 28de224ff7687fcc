//! A ring of virtual loudspeakers for headphones: the stereo pair is spread over six feeds, each
//! loudspeaker is heard by the near ear directly and by the far one later, softer and duller, and
//! the sum is mixed with the dry signal.

use vstd::prelude::*;
use crate::dsp::arith::{apply, smooth, to_unit, Calc, HALF_BITS};
use crate::dsp::delay::DelayLine;
use crate::dsp::spatial::{ears, surround_active, Feed, Speaker};
use crate::float_bits::{less_than, negate, ONE_BITS};
use crate::types::SurroundSpeakers;

verus! {

/// The bits of 0.000001: a ring with less gain is silent.
pub const SILENT_GAIN: u32 = 0x3586_37bd;

/// The state of a loudspeaker.
pub struct SpeakerView {
    pub speaker: Speaker,
    pub feed_gain: u32,
    /// What was played, the newest first.
    pub past: Seq<u32>,
    /// By how many samples the far ear hears it later.
    pub delay: int,
    pub shadow: u32,
    pub keep: u32,
    pub far_gain: u32,
}

/// A loudspeaker.
pub struct VirtualSpeaker {
    speaker: Speaker,
    feed_gain: u32,
    line: DelayLine,
    delay: usize,
    shadow: u32,
    keep: u32,
    far_gain: u32,
}

impl View for VirtualSpeaker {
    type V = SpeakerView;

    closed spec fn view(&self) -> SpeakerView {
        SpeakerView {
            speaker: self.speaker,
            feed_gain: self.feed_gain,
            past: self.line.past(),
            delay: self.delay as int,
            shadow: self.shadow,
            keep: self.keep,
            far_gain: self.far_gain,
        }
    }
}

/// What a loudspeaker plays to the near ear.
pub open spec fn near_of(s: SpeakerView, x: u32, g: spec_fn(Calc, u32, u32) -> u32) -> u32 {
    g(Calc::Mul, x, s.feed_gain)
}

/// The loudspeaker behind a sample; one that is off does not change.
pub open spec fn speaker_next(
    s: SpeakerView,
    x: u32,
    g: spec_fn(Calc, u32, u32) -> u32,
) -> SpeakerView {
    if !s.speaker.on {
        s
    } else {
        let past = crate::dsp::delay::pushed(s.past, near_of(s, x, g));
        let delayed = past[crate::dsp::delay::within(s.delay, s.past.len())];
        SpeakerView {
            past,
            shadow: crate::dsp::arith::smoothed(s.shadow, s.keep, delayed, g),
            ..s
        }
    }
}

/// What a loudspeaker gives to the left and the right ear.
pub open spec fn speaker_ears(
    s: SpeakerView,
    x: u32,
    g: spec_fn(Calc, u32, u32) -> u32,
) -> (u32, u32) {
    let near = near_of(s, x, g);
    let far = g(Calc::Mul, speaker_next(s, x, g).shadow, s.far_gain);
    if !s.speaker.on {
        (0, 0)
    } else if s.speaker.left {
        (near, far)
    } else {
        (far, near)
    }
}

/// What a loudspeaker adds to the gain of the left ear.
pub open spec fn left_gain_of(s: SpeakerView, g: spec_fn(Calc, u32, u32) -> u32) -> u32 {
    if s.speaker.left {
        s.feed_gain
    } else {
        g(Calc::Mul, s.feed_gain, s.far_gain)
    }
}

impl VirtualSpeaker {
    /// The line of the far ear is sound.
    pub closed spec fn wf(&self) -> bool {
        self.line.wf()
    }

    /// A loudspeaker that has played nothing.
    pub fn new(speaker: Speaker, feed_gain: u32, delay: usize, keep: u32, far_gain: u32) -> (r:
        VirtualSpeaker)
        requires
            delay < usize::MAX,
        ensures
            r.wf(),
            r@ == (SpeakerView {
                speaker,
                feed_gain,
                past: Seq::new(
                    (if delay < 1 {
                        2
                    } else {
                        delay + 1
                    }) as nat,
                    |i: int| 0u32,
                ),
                delay: delay as int,
                shadow: 0,
                keep,
                far_gain,
            }),
    {
        VirtualSpeaker {
            speaker,
            feed_gain,
            line: DelayLine::new(delay),
            delay,
            shadow: 0,
            keep,
            far_gain,
        }
    }

    /// Plays a sample to both ears.
    pub fn render<F: Fn(Calc, u32, u32) -> u32>(&mut self, x: u32, f: &F) -> (r: (u32, u32))
        requires
            old(self).wf(),
            crate::dsp::arith::callable(*f),
        ensures
            final(self).wf(),
            forall|g: spec_fn(Calc, u32, u32) -> u32| #[trigger]
                crate::dsp::arith::computes(*f, g) ==> r == speaker_ears(old(self)@, x, g)
                    && final(self)@ == speaker_next(old(self)@, x, g),
    {
        if !self.speaker.on {
            return (0, 0);
        }
        let near: u32 = apply(f, Calc::Mul, x, self.feed_gain);
        let delayed: u32 = self.line.process(near, self.delay);
        self.shadow = smooth(f, self.shadow, self.keep, delayed);
        let far: u32 = apply(f, Calc::Mul, self.shadow, self.far_gain);
        ears(self.speaker, near, far)
    }

    fn left_gain<F: Fn(Calc, u32, u32) -> u32>(&self, f: &F) -> (r: u32)
        requires
            crate::dsp::arith::callable(*f),
        ensures
            forall|g: spec_fn(Calc, u32, u32) -> u32| #[trigger]
                crate::dsp::arith::computes(*f, g) ==> r == left_gain_of(self@, g),
    {
        if self.speaker.left {
            self.feed_gain
        } else {
            apply(f, Calc::Mul, self.feed_gain, self.far_gain)
        }
    }
}

/// The state of the stage.
pub struct SurroundView {
    pub enabled: bool,
    pub intensity: u32,
    pub subwoofer: u32,
    pub wet_norm: u32,
    pub speakers: Seq<SpeakerView>,
    /// The rear feed, the newest first, and by how many samples it is late.
    pub rear: Seq<u32>,
    pub rear_delay: int,
    pub lfe: u32,
    pub lfe_keep: u32,
}

/// What a feed carries.
pub open spec fn feed_of(feed: Feed, l: u32, r: u32, rear: u32) -> u32 {
    match feed {
        Feed::Left => l,
        Feed::Right => r,
        Feed::Rear => rear,
        Feed::RearInverted => crate::float_bits::negated(rear),
    }
}

/// The sum of the first `n` loudspeakers at both ears.
pub open spec fn ring_ears(
    speakers: Seq<SpeakerView>,
    n: nat,
    l: u32,
    r: u32,
    rear: u32,
    g: spec_fn(Calc, u32, u32) -> u32,
) -> (u32, u32)
    decreases n,
{
    if n == 0 {
        (0, 0)
    } else {
        let (el, er) = ring_ears(speakers, (n - 1) as nat, l, r, rear, g);
        let s = speakers[n - 1];
        let (a, b) = speaker_ears(s, feed_of(s.speaker.feed, l, r, rear), g);
        (g(Calc::Add, el, a), g(Calc::Add, er, b))
    }
}

/// The loudspeakers behind a frame that the first `n` have played.
pub open spec fn ring_next(
    speakers: Seq<SpeakerView>,
    n: nat,
    l: u32,
    r: u32,
    rear: u32,
    g: spec_fn(Calc, u32, u32) -> u32,
) -> Seq<SpeakerView> {
    Seq::new(
        speakers.len(),
        |k: int|
            if k < n {
                speaker_next(
                    speakers[k],
                    feed_of(speakers[k].speaker.feed, l, r, rear),
                    g,
                )
            } else {
                speakers[k]
            },
    )
}

/// The rear feed with the difference of a frame, and what comes out of it.
pub open spec fn rear_next(
    s: SurroundView,
    l: u32,
    r: u32,
    g: spec_fn(Calc, u32, u32) -> u32,
) -> Seq<u32> {
    crate::dsp::delay::pushed(s.rear, g(Calc::Mul, g(Calc::Sub, l, r), HALF_BITS))
}

/// The rear sample of a frame.
pub open spec fn rear_sample(
    s: SurroundView,
    l: u32,
    r: u32,
    g: spec_fn(Calc, u32, u32) -> u32,
) -> u32 {
    rear_next(s, l, r, g)[crate::dsp::delay::within(s.rear_delay, s.rear.len())]
}

/// The state behind a frame.
pub open spec fn surround_next(
    s: SurroundView,
    l: u32,
    r: u32,
    g: spec_fn(Calc, u32, u32) -> u32,
) -> SurroundView {
    let rear = rear_sample(s, l, r, g);
    SurroundView {
        rear: rear_next(s, l, r, g),
        speakers: ring_next(s.speakers, s.speakers.len(), l, r, rear, g),
        lfe: if crate::float_bits::less(0, s.subwoofer) {
            crate::dsp::arith::smoothed(
                s.lfe,
                s.lfe_keep,
                g(Calc::Mul, g(Calc::Add, l, r), HALF_BITS),
                g,
            )
        } else {
            s.lfe
        },
        ..s
    }
}

/// One ear of a frame: the sum of the ring brought to the level of the dry signal, the low
/// frequencies where there is a subwoofer, and the dry signal itself.
pub open spec fn mixed_ear(
    s: SurroundView,
    next: SurroundView,
    dry: u32,
    sum: u32,
    g: spec_fn(Calc, u32, u32) -> u32,
) -> u32 {
    let ring = g(Calc::Mul, sum, s.wet_norm);
    let wet = if crate::float_bits::less(0, s.subwoofer) {
        g(Calc::Add, ring, g(Calc::Mul, next.lfe, s.subwoofer))
    } else {
        ring
    };
    g(
        Calc::Add,
        g(Calc::Mul, dry, g(Calc::Sub, ONE_BITS, s.intensity)),
        g(Calc::Mul, wet, s.intensity),
    )
}

/// A frame behind the stage.
pub open spec fn surround_out(
    s: SurroundView,
    l: u32,
    r: u32,
    g: spec_fn(Calc, u32, u32) -> u32,
) -> (u32, u32) {
    let next = surround_next(s, l, r, g);
    let (el, er) = ring_ears(s.speakers, s.speakers.len(), l, r, rear_sample(s, l, r, g), g);
    (mixed_ear(s, next, l, el, g), mixed_ear(s, next, r, er, g))
}

/// The stage and the block behind the first `n` frames; only the first two channels are heard.
pub open spec fn surround_block(
    s: SurroundView,
    buffer: Seq<u32>,
    channels: int,
    n: nat,
    g: spec_fn(Calc, u32, u32) -> u32,
) -> (SurroundView, Seq<u32>)
    decreases n,
{
    if n == 0 {
        (s, buffer)
    } else {
        let (t, b) = surround_block(s, buffer, channels, (n - 1) as nat, g);
        let at = (n - 1) * channels;
        let (l, r) = surround_out(t, b[at], b[at + 1], g);
        (surround_next(t, b[at], b[at + 1], g), b.update(at, l).update(at + 1, r))
    }
}

/// The gain of the left ear over the first `n` loudspeakers that are on.
pub open spec fn ring_gain(
    speakers: Seq<SpeakerView>,
    n: nat,
    g: spec_fn(Calc, u32, u32) -> u32,
) -> u32
    decreases n,
{
    if n == 0 {
        0
    } else {
        let sum = ring_gain(speakers, (n - 1) as nat, g);
        if speakers[n - 1].speaker.on {
            g(Calc::Add, sum, left_gain_of(speakers[n - 1], g))
        } else {
            sum
        }
    }
}

/// What brings the ring to the level of the dry signal; a silent ring stays silent.
pub open spec fn ring_norm(
    speakers: Seq<SpeakerView>,
    g: spec_fn(Calc, u32, u32) -> u32,
) -> u32 {
    let gain = ring_gain(speakers, speakers.len(), g);
    if crate::float_bits::less(SILENT_GAIN, gain) {
        g(Calc::Div, ONE_BITS, gain)
    } else {
        0
    }
}

/// The loudspeakers switched on and off.
pub open spec fn switched(speakers: Seq<SpeakerView>, s: SurroundSpeakers) -> Seq<SpeakerView> {
    Seq::new(
        speakers.len(),
        |k: int|
            SpeakerView {
                speaker: crate::dsp::spatial::speaker_table(s)[k],
                ..speakers[k]
            },
    )
}

/// The stage.
pub struct Surround3D {
    enabled: bool,
    intensity: u32,
    subwoofer: u32,
    wet_norm: u32,
    speakers: Vec<VirtualSpeaker>,
    rear: DelayLine,
    rear_delay: usize,
    lfe: u32,
    lfe_keep: u32,
}

/// The states of loudspeakers.
pub open spec fn speaker_views(speakers: Seq<VirtualSpeaker>) -> Seq<SpeakerView> {
    speakers.map_values(|s: VirtualSpeaker| s@)
}

impl View for Surround3D {
    type V = SurroundView;

    closed spec fn view(&self) -> SurroundView {
        SurroundView {
            enabled: self.enabled,
            intensity: self.intensity,
            subwoofer: self.subwoofer,
            wet_norm: self.wet_norm,
            speakers: speaker_views(self.speakers@),
            rear: self.rear.past(),
            rear_delay: self.rear_delay as int,
            lfe: self.lfe,
            lfe_keep: self.lfe_keep,
        }
    }
}

/// What the geometry of a loudspeaker and the sample rate come to.
#[derive(Debug, Clone, Copy, PartialEq, Eq, Structural)]
pub struct SpeakerSetup {
    pub feed_gain: u32,
    pub delay: usize,
    pub keep: u32,
    pub far_gain: u32,
}

impl Surround3D {
    /// There are six loudspeakers, and all lines are sound.
    pub closed spec fn wf(&self) -> bool {
        &&& self.rear.wf()
        &&& self.speakers@.len() == 6
        &&& forall|k: int| 0 <= k < 6 ==> (#[trigger] self.speakers@[k]).wf()
    }

    /// A stage that is switched off, for the geometry of its loudspeakers: front, side and rear,
    /// each left and right.
    pub fn new<F: Fn(Calc, u32, u32) -> u32>(
        setups: &Vec<SpeakerSetup>,
        on: SurroundSpeakers,
        rear_delay: usize,
        lfe_keep: u32,
        f: &F,
    ) -> (r: Surround3D)
        requires
            setups@.len() == 6,
            forall|k: int| 0 <= k < 6 ==> (#[trigger] setups@[k]).delay < usize::MAX,
            rear_delay < usize::MAX,
            crate::dsp::arith::callable(*f),
        ensures
            r.wf(),
            r@.speakers.len() == 6,
            forall|k: int|
                0 <= k < 6 ==> #[trigger] r@.speakers[k] == (SpeakerView {
                    speaker: crate::dsp::spatial::speaker_table(on)[k],
                    feed_gain: setups@[k].feed_gain,
                    past: Seq::new(
                        (if setups@[k].delay < 1 {
                            2
                        } else {
                            setups@[k].delay + 1
                        }) as nat,
                        |i: int| 0u32,
                    ),
                    delay: setups@[k].delay as int,
                    shadow: 0,
                    keep: setups@[k].keep,
                    far_gain: setups@[k].far_gain,
                }),
            !r@.enabled && r@.intensity == 0 && r@.subwoofer == 0 && r@.lfe == 0,
            r@.lfe_keep == lfe_keep,
            r@.rear_delay == rear_delay,
            r@.rear == Seq::new(
                (if rear_delay < 1 {
                    2
                } else {
                    rear_delay + 1
                }) as nat,
                |i: int| 0u32,
            ),
            forall|g: spec_fn(Calc, u32, u32) -> u32| #[trigger]
                crate::dsp::arith::computes(*f, g) ==> r@.wet_norm == ring_norm(r@.speakers, g),
    {
        let table = crate::dsp::spatial::speakers(on);
        let mut speakers: Vec<VirtualSpeaker> = Vec::new();
        let mut k: usize = 0;
        while k < 6
            invariant
                k <= 6,
                setups@.len() == 6,
                table@ == crate::dsp::spatial::speaker_table(on),
                forall|j: int| 0 <= j < 6 ==> (#[trigger] setups@[j]).delay < usize::MAX,
                speakers@.len() == k,
                forall|j: int| 0 <= j < k ==> (#[trigger] speakers@[j]).wf(),
                forall|j: int|
                    0 <= j < k ==> (#[trigger] speakers@[j])@ == (SpeakerView {
                        speaker: crate::dsp::spatial::speaker_table(on)[j],
                        feed_gain: setups@[j].feed_gain,
                        past: Seq::new(
                            (if setups@[j].delay < 1 {
                                2
                            } else {
                                setups@[j].delay + 1
                            }) as nat,
                            |i: int| 0u32,
                        ),
                        delay: setups@[j].delay as int,
                        shadow: 0,
                        keep: setups@[j].keep,
                        far_gain: setups@[j].far_gain,
                    }),
            decreases 6 - k,
        {
            let s: SpeakerSetup = setups[k];
            speakers.push(VirtualSpeaker::new(table[k], s.feed_gain, s.delay, s.keep, s.far_gain));
            k += 1;
        }
        let mut r = Surround3D {
            enabled: false,
            intensity: 0,
            subwoofer: 0,
            wet_norm: ONE_BITS,
            speakers,
            rear: DelayLine::new(rear_delay),
            rear_delay,
            lfe: 0,
            lfe_keep,
        };
        r.wet_norm = r.norm(f);
        r
    }

    fn norm<F: Fn(Calc, u32, u32) -> u32>(&self, f: &F) -> (r: u32)
        requires
            crate::dsp::arith::callable(*f),
        ensures
            forall|g: spec_fn(Calc, u32, u32) -> u32| #[trigger]
                crate::dsp::arith::computes(*f, g) ==> r == ring_norm(
                    speaker_views(self.speakers@),
                    g,
                ),
    {
        let ghost views = speaker_views(self.speakers@);
        let mut sum: u32 = 0;
        let mut k: usize = 0;
        while k < self.speakers.len()
            invariant
                k <= self.speakers@.len(),
                views == speaker_views(self.speakers@),
                crate::dsp::arith::callable(*f),
                forall|g: spec_fn(Calc, u32, u32) -> u32| #[trigger]
                    crate::dsp::arith::computes(*f, g) ==> sum == ring_gain(views, k as nat, g),
            decreases self.speakers@.len() - k,
        {
            let s = &self.speakers[k];
            assert(views[k as int] == s@);
            if s.speaker.on {
                let gain: u32 = s.left_gain(f);
                sum = apply(f, Calc::Add, sum, gain);
            }
            k += 1;
        }
        assert(views.len() == self.speakers@.len());
        if less_than(SILENT_GAIN, sum) {
            apply(f, Calc::Div, ONE_BITS, sum)
        } else {
            0
        }
    }

    /// Takes settings; amounts are cut to the range from zero to one.
    pub fn set_params<F: Fn(Calc, u32, u32) -> u32>(
        &mut self,
        enabled: bool,
        intensity: u32,
        subwoofer: u32,
        on: SurroundSpeakers,
        f: &F,
    )
        requires
            old(self).wf(),
            crate::dsp::arith::callable(*f),
        ensures
            final(self).wf(),
            forall|g: spec_fn(Calc, u32, u32) -> u32| #[trigger]
                crate::dsp::arith::computes(*f, g) ==> {
                    let speakers = switched(old(self)@.speakers, on);
                    final(self)@ == (SurroundView {
                        enabled,
                        intensity: crate::dsp::arith::unit(intensity),
                        subwoofer: crate::dsp::arith::unit(subwoofer),
                        wet_norm: ring_norm(speakers, g),
                        speakers,
                        ..old(self)@
                    })
                },
    {
        let ghost before = self@.speakers;
        self.enabled = enabled;
        self.intensity = to_unit(intensity);
        self.subwoofer = to_unit(subwoofer);
        let table = crate::dsp::spatial::speakers(on);
        let mut k: usize = 0;
        while k < 6
            invariant
                k <= 6,
                self.wf(),
                table@ == crate::dsp::spatial::speaker_table(on),
                before.len() == 6,
                self@ == (SurroundView {
                    enabled,
                    intensity: crate::dsp::arith::unit(intensity),
                    subwoofer: crate::dsp::arith::unit(subwoofer),
                    speakers: self@.speakers,
                    ..old(self)@
                }),
                forall|j: int|
                    0 <= j < 6 ==> #[trigger] self@.speakers[j] == (if j < k {
                        SpeakerView {
                            speaker: crate::dsp::spatial::speaker_table(on)[j],
                            ..before[j]
                        }
                    } else {
                        before[j]
                    }),
            decreases 6 - k,
        {
            let ghost speakers0 = self.speakers@;
            let ghost views0 = self@.speakers;
            self.speakers[k].speaker = table[k];
            proof {
                assert forall|j: int| 0 <= j < 6 && j != k implies #[trigger] self.speakers@[j]
                    == speakers0[j] by {}
                assert forall|j: int| 0 <= j < 6 implies (#[trigger] self.speakers@[j]).wf() by {
                    assert(speakers0[j].wf());
                }
                assert forall|j: int| 0 <= j < 6 implies #[trigger] self@.speakers[j] == (if j < k
                    + 1 {
                    SpeakerView {
                        speaker: crate::dsp::spatial::speaker_table(on)[j],
                        ..before[j]
                    }
                } else {
                    before[j]
                }) by {
                    assert(self@.speakers[j] == self.speakers@[j]@);
                    assert(views0[j] == speakers0[j]@);
                }
            }
            k += 1;
        }
        assert(self@.speakers =~= switched(before, on));
        self.wet_norm = self.norm(f);
    }

    /// Plays a block in place. Without a pair of channels, or where nothing would be heard, it is
    /// left alone.
    pub fn process<F: Fn(Calc, u32, u32) -> u32>(
        &mut self,
        buffer: &mut Vec<u32>,
        channels: usize,
        f: &F,
    )
        requires
            old(self).wf(),
            crate::dsp::arith::callable(*f),
        ensures
            final(self).wf(),
            final(buffer)@.len() == old(buffer)@.len(),
            channels < 2 || !heard(old(self)@) ==> final(buffer)@ == old(buffer)@ && final(self)@
                == old(self)@,
            channels >= 2 && heard(old(self)@) ==> forall|g: spec_fn(Calc, u32, u32) -> u32|
             #[trigger]
                crate::dsp::arith::computes(*f, g) ==> surround_block(
                    old(self)@,
                    old(buffer)@,
                    channels as int,
                    old(buffer)@.len() / (channels as nat),
                    g,
                ) == (final(self)@, final(buffer)@),
    {
        if channels < 2 || !surround_active(
            self.enabled,
            self.intensity,
            self.wet_norm,
            self.subwoofer,
        ) {
            return;
        }
        let ghost start = self@;
        let frames: usize = buffer.len() / channels;
        let mut n: usize = 0;
        while n < frames
            invariant
                n <= frames,
                channels >= 2,
                frames == buffer@.len() / (channels as nat),
                buffer@.len() == old(buffer)@.len(),
                self.wf(),
                crate::dsp::arith::callable(*f),
                forall|g: spec_fn(Calc, u32, u32) -> u32| #[trigger]
                    crate::dsp::arith::computes(*f, g) ==> surround_block(
                        start,
                        old(buffer)@,
                        channels as int,
                        n as nat,
                        g,
                    ) == (self@, buffer@),
            decreases frames - n,
        {
            let len: usize = buffer.len();
            proof {
                crate::dsp::arith::lemma_frame_inside(n as int, len as int, channels as int);
            }
            assert(n * channels + channels <= len);
            let at: usize = n * channels;
            let (l, r): (u32, u32) = self.frame(buffer[at], buffer[at + 1], f);
            buffer.set(at, l);
            buffer.set(at + 1, r);
            n += 1;
        }
    }

    /// Plays one frame.
    fn frame<F: Fn(Calc, u32, u32) -> u32>(&mut self, l: u32, r: u32, f: &F) -> (out: (u32, u32))
        requires
            old(self).wf(),
            crate::dsp::arith::callable(*f),
        ensures
            final(self).wf(),
            forall|g: spec_fn(Calc, u32, u32) -> u32| #[trigger]
                crate::dsp::arith::computes(*f, g) ==> out == surround_out(old(self)@, l, r, g)
                    && final(self)@ == surround_next(old(self)@, l, r, g),
    {
        let ghost s = self@;
        let difference: u32 = apply(f, Calc::Sub, l, r);
        let half: u32 = apply(f, Calc::Mul, difference, HALF_BITS);
        let rear: u32 = self.rear.process(half, self.rear_delay);
        let (el, er): (u32, u32) = self.ring(l, r, rear, f);
        let mut wl: u32 = apply(f, Calc::Mul, el, self.wet_norm);
        let mut wr: u32 = apply(f, Calc::Mul, er, self.wet_norm);
        if less_than(0, self.subwoofer) {
            let both: u32 = apply(f, Calc::Add, l, r);
            let mid: u32 = apply(f, Calc::Mul, both, HALF_BITS);
            self.lfe = smooth(f, self.lfe, self.lfe_keep, mid);
            let low: u32 = apply(f, Calc::Mul, self.lfe, self.subwoofer);
            wl = apply(f, Calc::Add, wl, low);
            wr = apply(f, Calc::Add, wr, low);
        }
        let dry: u32 = apply(f, Calc::Sub, ONE_BITS, self.intensity);
        let dl: u32 = apply(f, Calc::Mul, l, dry);
        let dr: u32 = apply(f, Calc::Mul, r, dry);
        let ml: u32 = apply(f, Calc::Mul, wl, self.intensity);
        let mr: u32 = apply(f, Calc::Mul, wr, self.intensity);
        (apply(f, Calc::Add, dl, ml), apply(f, Calc::Add, dr, mr))
    }

    /// Plays one frame over the ring.
    fn ring<F: Fn(Calc, u32, u32) -> u32>(&mut self, l: u32, r: u32, rear: u32, f: &F) -> (out: (
        u32,
        u32,
    ))
        requires
            old(self).wf(),
            crate::dsp::arith::callable(*f),
        ensures
            final(self).wf(),
            forall|g: spec_fn(Calc, u32, u32) -> u32| #[trigger]
                crate::dsp::arith::computes(*f, g) ==> out == ring_ears(
                    old(self)@.speakers,
                    old(self)@.speakers.len(),
                    l,
                    r,
                    rear,
                    g,
                ) && final(self)@ == (SurroundView {
                    speakers: ring_next(
                        old(self)@.speakers,
                        old(self)@.speakers.len(),
                        l,
                        r,
                        rear,
                        g,
                    ),
                    ..old(self)@
                }),
    {
        let ghost all = self@.speakers;
        let ghost rest = self@;
        let mut el: u32 = 0;
        let mut er: u32 = 0;
        let mut k: usize = 0;
        assert forall|g: spec_fn(Calc, u32, u32) -> u32| #[trigger]
            crate::dsp::arith::computes(*f, g) implies self@.speakers == ring_next(
            all,
            0,
            l,
            r,
            rear,
            g,
        ) by {
            assert(self@.speakers =~= ring_next(all, 0, l, r, rear, g));
        }
        while k < 6
            invariant
                k <= 6,
                self.wf(),
                all.len() == 6,
                self@ == (SurroundView { speakers: self@.speakers, ..rest }),
                crate::dsp::arith::callable(*f),
                forall|g: spec_fn(Calc, u32, u32) -> u32| #[trigger]
                    crate::dsp::arith::computes(*f, g) ==> (el, er) == ring_ears(
                        all,
                        k as nat,
                        l,
                        r,
                        rear,
                        g,
                    ) && self@.speakers == ring_next(all, k as nat, l, r, rear, g),
            decreases 6 - k,
        {
            let ghost views0 = self@.speakers;
            let ghost speakers0 = self.speakers@;
            let x: u32 = match self.speakers[k].speaker.feed {
                Feed::Left => l,
                Feed::Right => r,
                Feed::Rear => rear,
                Feed::RearInverted => negate(rear),
            };
            let (a, b): (u32, u32) = self.speakers[k].render(x, f);
            el = apply(f, Calc::Add, el, a);
            er = apply(f, Calc::Add, er, b);
            proof {
                assert forall|j: int| 0 <= j < 6 implies (#[trigger] self.speakers@[j]).wf() by {
                    assert(speakers0[j].wf());
                }
                assert(views0[k as int] == speakers0[k as int]@);
                assert forall|g: spec_fn(Calc, u32, u32) -> u32| #[trigger]
                    crate::dsp::arith::computes(*f, g) implies self@.speakers == ring_next(
                    all,
                    (k + 1) as nat,
                    l,
                    r,
                    rear,
                    g,
                ) && (el, er) == ring_ears(all, (k + 1) as nat, l, r, rear, g) by {
                    assert(views0 == ring_next(all, k as nat, l, r, rear, g));
                    assert(views0[k as int] == all[k as int]);
                    assert forall|j: int| 0 <= j < 6 implies #[trigger] self@.speakers[j]
                        == ring_next(all, (k + 1) as nat, l, r, rear, g)[j] by {
                        assert(self@.speakers[j] == self.speakers@[j]@);
                        assert(views0[j] == speakers0[j]@);
                    }
                    assert(self@.speakers =~= ring_next(all, (k + 1) as nat, l, r, rear, g));
                }
            }
            k += 1;
        }
        (el, er)
    }
}

/// Something of the stage is heard.
pub open spec fn heard(s: SurroundView) -> bool {
    s.enabled && crate::float_bits::less(0, s.intensity) && (crate::float_bits::less(
        0,
        s.wet_norm,
    ) || crate::float_bits::less(0, s.subwoofer))
}

/// Channels behind the second are never touched, and a block keeps its length.
pub proof fn law_other_channels_are_left_alone(
    s: SurroundView,
    buffer: Seq<u32>,
    channels: int,
    n: nat,
    f: int,
    c: int,
    g: spec_fn(Calc, u32, u32) -> u32,
)
    requires
        2 <= c < channels,
        n <= buffer.len() / (channels as nat),
        0 <= f < buffer.len() / (channels as nat),
    ensures
        surround_block(s, buffer, channels, n, g).1.len() == buffer.len(),
        surround_block(s, buffer, channels, n, g).1[f * channels + c] == buffer[f * channels + c],
    decreases n,
{
    if n > 0 {
        law_other_channels_are_left_alone(s, buffer, channels, (n - 1) as nat, f, c, g);
        crate::dsp::arith::lemma_frame_inside(f, buffer.len() as int, channels);
        crate::dsp::arith::lemma_frame_inside(n - 1, buffer.len() as int, channels);
        let m = n - 1;
        assert(f * channels + c != m * channels && f * channels + c != m * channels + 1)
            by (nonlinear_arith)
            requires
                2 <= c < channels,
                m == n - 1,
        ;
    }
}

} // verus!
