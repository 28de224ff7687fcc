//! Delay lines.

use vstd::prelude::*;

verus! {

/// Values of the recent past, in a buffer of fixed size.
#[derive(Debug, Clone)]
pub struct Ring<T> {
    buf: Vec<T>,
    idx: usize,
}

/// Where the value stands that was stored `back` steps ago, from 1 on.
spec fn slot(idx: int, len: int, back: int) -> int {
    if idx >= back {
        idx - back
    } else {
        idx + len - back
    }
}

/// The past with one more value: the newest comes first, and the oldest leaves.
pub open spec fn pushed<T>(past: Seq<T>, x: T) -> Seq<T> {
    seq![x] + past.drop_last()
}

impl<T> Ring<T> {
    /// The buffer is not empty, and the place to store next lies in it.
    pub closed spec fn wf(&self) -> bool {
        self.idx < self.buf@.len()
    }

    /// The values of the past, the newest first.
    pub closed spec fn past(&self) -> Seq<T> {
        Seq::new(
            self.buf@.len(),
            |k: int| self.buf@[slot(self.idx as int, self.buf@.len() as int, k + 1)],
        )
    }

    /// A ring whose past is given, the oldest first.
    pub fn new(buf: Vec<T>) -> (r: Ring<T>)
        requires
            buf@.len() > 0,
        ensures
            r.wf(),
            r.past() == buf@.reverse(),
    {
        let r = Ring { buf, idx: 0 };
        assert(r.past() =~= buf@.reverse());
        r
    }

    /// How far the past reaches back.
    pub fn len(&self) -> (r: usize)
        ensures
            r == self.past().len(),
            self.wf() ==> r >= 1,
    {
        self.buf.len()
    }

    /// The value that was stored `back` steps ago.
    pub fn tap(&self, back: usize) -> (r: &T)
        requires
            self.wf(),
            1 <= back <= self.past().len(),
        ensures
            *r == self.past()[back - 1],
    {
        let n: usize = self.buf.len();
        let at: usize = if self.idx >= back {
            self.idx - back
        } else {
            n - (back - self.idx)
        };
        &self.buf[at]
    }

    /// Stores a value.
    pub fn push(&mut self, x: T)
        requires
            old(self).wf(),
        ensures
            final(self).wf(),
            final(self).past() == pushed(old(self).past(), x),
    {
        let n: usize = self.buf.len();
        let at: usize = self.idx;
        let ghost before = self.past();
        let ghost old_buf = self.buf@;
        self.buf.set(at, x);
        self.idx = if at + 1 == n {
            0
        } else {
            at + 1
        };
        proof {
            let want = pushed(before, x);
            assert forall|k: int| 0 <= k < n implies self.past()[k] == want[k] by {
                if k > 0 {
                    assert(want[k] == before[k - 1]);
                    assert(slot(self.idx as int, n as int, k + 1) == slot(at as int, n as int, k));
                    assert(slot(at as int, n as int, k) != at);
                }
            }
            assert(self.past() =~= want);
        }
    }
}

/// The past after values were stored one after another.
pub open spec fn fed<T>(past: Seq<T>, xs: Seq<T>) -> Seq<T>
    decreases xs.len(),
{
    if xs.len() == 0 {
        past
    } else {
        pushed(fed(past, xs.drop_last()), xs.last())
    }
}

/// What was stored comes back in the same order, as many steps later as is asked for.
pub proof fn law_a_ring_delays<T>(past: Seq<T>, xs: Seq<T>, back: int)
    requires
        1 <= back <= past.len(),
    ensures
        fed(past, xs).len() == past.len(),
        back <= xs.len() ==> fed(past, xs)[back - 1] == xs[xs.len() - back],
        back > xs.len() ==> fed(past, xs)[back - 1] == past[back - 1 - xs.len()],
    decreases xs.len(),
{
    if xs.len() > 0 {
        let head = xs.drop_last();
        law_a_ring_delays(past, head, back);
        if back > 1 {
            law_a_ring_delays(past, head, back - 1);
        }
    }
}

/// Silence of a length.
pub fn silence(len: usize) -> (r: Vec<u32>)
    ensures
        r@ == Seq::new(len as nat, |i: int| 0u32),
{
    let mut buf: Vec<u32> = Vec::new();
    let mut i: usize = 0;
    while i < len
        invariant
            i <= len,
            buf@ == Seq::new(i as nat, |k: int| 0u32),
        decreases len - i,
    {
        buf.push(0);
        i += 1;
        assert(buf@ =~= Seq::new(i as nat, |k: int| 0u32));
    }
    buf
}

/// A delay of a whole number of samples, up to a limit.
#[derive(Debug, Clone)]
pub struct DelayLine {
    ring: Ring<u32>,
}

/// The delay that a line can give: at most one less than its past reaches back.
pub open spec fn within(delay: int, reach: nat) -> int {
    if delay < reach {
        delay
    } else {
        reach - 1
    }
}

impl DelayLine {
    /// The line is sound.
    pub closed spec fn wf(&self) -> bool {
        self.ring.wf() && self.ring.past().len() >= 2
    }

    /// The samples of the past, the newest first.
    pub closed spec fn past(&self) -> Seq<u32> {
        self.ring.past()
    }

    /// A silent line that can delay by up to `max_delay` samples, and by one in any case.
    pub fn new(max_delay: usize) -> (r: DelayLine)
        requires
            max_delay < usize::MAX,
        ensures
            r.wf(),
            r.past() == Seq::new(
                (if max_delay < 1 {
                    2
                } else {
                    max_delay + 1
                }) as nat,
                |i: int| 0u32,
            ),
    {
        let n: usize = if max_delay < 1 {
            2
        } else {
            max_delay + 1
        };
        let buf = silence(n);
        assert(buf@.reverse() =~= buf@);
        DelayLine { ring: Ring::new(buf) }
    }

    /// Stores a sample; the result is the sample that was stored `delay` samples ago. Without a
    /// delay that is the sample itself.
    pub fn process(&mut self, x: u32, delay: usize) -> (r: u32)
        requires
            old(self).wf(),
        ensures
            final(self).wf(),
            final(self).past() == pushed(old(self).past(), x),
            r == final(self).past()[within(delay as int, old(self).past().len())],
    {
        let n: usize = self.ring.len();
        let d: usize = if delay < n {
            delay
        } else {
            n - 1
        };
        let r: u32 = if d == 0 {
            x
        } else {
            *self.ring.tap(d)
        };
        self.ring.push(x);
        r
    }
}

/// At least one, at most `cap`.
pub open spec fn settable(delay: int, cap: nat) -> int {
    if delay < 1 {
        1
    } else if delay <= cap {
        delay
    } else {
        cap as int
    }
}

/// A line whose delay can be set while it runs, within its capacity. What is read and what is
/// stored are separate steps, so that what was read can be fed back.
#[derive(Debug, Clone)]
pub struct CombLine {
    ring: Ring<u32>,
    delay: usize,
}

impl CombLine {
    /// The delay lies within the capacity.
    pub closed spec fn wf(&self) -> bool {
        self.ring.wf() && 1 <= self.delay <= self.ring.past().len()
    }

    /// The samples of the past, the newest first.
    pub closed spec fn past(&self) -> Seq<u32> {
        self.ring.past()
    }

    /// The delay in samples.
    pub closed spec fn delay(&self) -> int {
        self.delay as int
    }

    fn clamped(delay: usize, cap: usize) -> (r: usize)
        ensures
            r == settable(delay as int, cap as nat),
    {
        if delay < 1 {
            1
        } else if delay <= cap {
            delay
        } else {
            cap
        }
    }

    /// A silent line that holds `cap` samples, and one in any case.
    pub fn new(cap: usize, delay: usize) -> (r: CombLine)
        ensures
            r.wf(),
            r.past() == Seq::new(
                (if cap < 1 {
                    1
                } else {
                    cap as int
                }) as nat,
                |i: int| 0u32,
            ),
            r.delay() == settable(delay as int, r.past().len()),
    {
        let n: usize = if cap < 1 {
            1
        } else {
            cap
        };
        let buf = silence(n);
        assert(buf@.reverse() =~= buf@);
        CombLine { ring: Ring::new(buf), delay: Self::clamped(delay, n) }
    }

    /// Sets the delay, as far as the capacity allows.
    pub fn set_delay(&mut self, delay: usize)
        requires
            old(self).wf(),
        ensures
            final(self).wf(),
            final(self).past() == old(self).past(),
            final(self).delay() == settable(delay as int, old(self).past().len()),
    {
        let n: usize = self.ring.len();
        self.delay = Self::clamped(delay, n);
    }

    /// The sample that was stored as many samples ago as the delay says.
    pub fn read(&self) -> (r: u32)
        requires
            self.wf(),
        ensures
            r == self.past()[self.delay() - 1],
    {
        *self.ring.tap(self.delay)
    }

    /// Stores a sample.
    pub fn store(&mut self, x: u32)
        requires
            old(self).wf(),
        ensures
            final(self).wf(),
            final(self).past() == pushed(old(self).past(), x),
            final(self).delay() == old(self).delay(),
    {
        self.ring.push(x);
    }
}

/// A line in front of a room. Without a delay samples pass it by and are not stored.
#[derive(Debug, Clone)]
pub struct PreDelay {
    ring: Ring<u32>,
}

/// How far back a line of `cap` samples reads for a delay: at most one less than it holds, but
/// not less than one.
pub open spec fn pre_delay_reach(delay: int, cap: nat) -> int {
    if delay < cap {
        delay
    } else if cap > 1 {
        cap - 1
    } else {
        1
    }
}

impl PreDelay {
    /// The line is sound.
    pub closed spec fn wf(&self) -> bool {
        self.ring.wf()
    }

    /// The samples of the past, the newest first.
    pub closed spec fn past(&self) -> Seq<u32> {
        self.ring.past()
    }

    /// A silent line that holds `cap` samples, and one in any case.
    pub fn new(cap: usize) -> (r: PreDelay)
        ensures
            r.wf(),
            r.past() == Seq::new(
                (if cap < 1 {
                    1
                } else {
                    cap as int
                }) as nat,
                |i: int| 0u32,
            ),
    {
        let n: usize = if cap < 1 {
            1
        } else {
            cap
        };
        let buf = silence(n);
        assert(buf@.reverse() =~= buf@);
        PreDelay { ring: Ring::new(buf) }
    }

    /// Delays a sample.
    pub fn process(&mut self, x: u32, delay: usize) -> (r: u32)
        requires
            old(self).wf(),
        ensures
            final(self).wf(),
            delay == 0 ==> r == x && final(self).past() == old(self).past(),
            delay > 0 ==> r == old(self).past()[pre_delay_reach(
                delay as int,
                old(self).past().len(),
            ) - 1] && final(self).past() == pushed(old(self).past(), x),
    {
        if delay == 0 {
            return x;
        }
        let n: usize = self.ring.len();
        let d: usize = if delay < n {
            delay
        } else if n > 1 {
            n - 1
        } else {
            1
        };
        let r: u32 = *self.ring.tap(d);
        self.ring.push(x);
        r
    }
}

/// Frames held back so that a gain can be set before they are heard. Without a look-ahead a frame
/// comes out at once.
#[derive(Debug, Clone)]
pub struct HeldFrames {
    ring: Option<Ring<(u32, u32)>>,
}

/// What comes out of held frames for a frame that comes in.
pub open spec fn held_out(held: Seq<(u32, u32)>, frame: (u32, u32)) -> (u32, u32) {
    if held.len() == 0 {
        frame
    } else {
        held.last()
    }
}

/// The held frames behind a frame, the newest first.
pub open spec fn held_after(held: Seq<(u32, u32)>, frame: (u32, u32)) -> Seq<(u32, u32)> {
    if held.len() == 0 {
        held
    } else {
        pushed(held, frame)
    }
}

impl HeldFrames {
    /// The line is sound.
    pub closed spec fn wf(&self) -> bool {
        self.ring matches Some(r) ==> r.wf() && r.past().len() > 0
    }

    /// The frames that are held, the newest first.
    pub closed spec fn held(&self) -> Seq<(u32, u32)> {
        match self.ring {
            Some(r) => r.past(),
            None => Seq::empty(),
        }
    }

    /// A look-ahead of as many silent frames.
    pub fn new(lookahead: usize) -> (r: HeldFrames)
        ensures
            r.wf(),
            r.held() == Seq::new(lookahead as nat, |i: int| (0u32, 0u32)),
    {
        if lookahead == 0 {
            let r = HeldFrames { ring: None };
            assert(r.held() =~= Seq::new(lookahead as nat, |i: int| (0u32, 0u32)));
            return r;
        }
        let mut buf: Vec<(u32, u32)> = Vec::new();
        let mut i: usize = 0;
        while i < lookahead
            invariant
                i <= lookahead,
                buf@ == Seq::new(i as nat, |k: int| (0u32, 0u32)),
            decreases lookahead - i,
        {
            buf.push((0, 0));
            i += 1;
            assert(buf@ =~= Seq::new(i as nat, |k: int| (0u32, 0u32)));
        }
        assert(buf@.reverse() =~= buf@);
        HeldFrames { ring: Some(Ring::new(buf)) }
    }

    /// Takes a frame in and gives the one out whose time has come.
    pub fn process(&mut self, left: u32, right: u32) -> (r: (u32, u32))
        requires
            old(self).wf(),
        ensures
            final(self).wf(),
            r == held_out(old(self).held(), (left, right)),
            final(self).held() == held_after(old(self).held(), (left, right)),
    {
        match &mut self.ring {
            None => (left, right),
            Some(ring) => {
                let n: usize = ring.len();
                let out: (u32, u32) = *ring.tap(n);
                ring.push((left, right));
                out
            },
        }
    }
}

impl HeldFrames {
    /// Takes the left sample of a frame in and gives the one out whose time has come; the right
    /// samples are passed on as they are.
    pub fn process_left(&mut self, left: u32) -> (r: u32)
        requires
            old(self).wf(),
        ensures
            final(self).wf(),
            r == held_out(old(self).held(), (left, 0)).0,
            final(self).held() == held_after(
                old(self).held(),
                (left, held_out(old(self).held(), (left, 0)).1),
            ),
    {
        match &mut self.ring {
            None => left,
            Some(ring) => {
                let n: usize = ring.len();
                let out: (u32, u32) = *ring.tap(n);
                ring.push((left, out.1));
                out.0
            },
        }
    }
}

/// The held frames after frames came in one after another.
pub open spec fn held_after_all(held: Seq<(u32, u32)>, frames: Seq<(u32, u32)>) -> Seq<(u32, u32)>
    decreases frames.len(),
{
    if frames.len() == 0 {
        held
    } else {
        held_after(held_after_all(held, frames.drop_last()), frames.last())
    }
}

/// Bands with the same look-ahead stay aligned: each frame comes out as many frames later as the
/// look-ahead says, whatever its values and those of other bands are.
pub proof fn law_bands_stay_aligned(
    held: Seq<(u32, u32)>,
    frames: Seq<(u32, u32)>,
    frame: (u32, u32),
)
    ensures
        held_after_all(held, frames).len() == held.len(),
        held_out(held_after_all(held, frames), frame) == (if held.len() == 0 {
            frame
        } else if held.len() <= frames.len() {
            frames[frames.len() - held.len()]
        } else {
            held[held.len() - 1 - frames.len()]
        }),
{
    lemma_held_is_fed(held, frames);
    if held.len() > 0 {
        law_a_ring_delays(held, frames, held.len() as int);
    }
}

proof fn lemma_held_is_fed(held: Seq<(u32, u32)>, frames: Seq<(u32, u32)>)
    ensures
        held.len() == 0 ==> held_after_all(held, frames) == held,
        held.len() > 0 ==> held_after_all(held, frames) == fed(held, frames) && fed(
            held,
            frames,
        ).len() == held.len(),
    decreases frames.len(),
{
    if frames.len() > 0 {
        lemma_held_is_fed(held, frames.drop_last());
    }
}

} // verus!
