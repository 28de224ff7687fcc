//! How audio is cut into blocks does not matter to the effects: two blocks of whole frames, one
//! behind the other, come out as the block that they make together.

use vstd::prelude::*;
use crate::dsp::arith::Calc;
use crate::dsp::bass::{BassChannel, BassSettings};
use crate::dsp::biquad::Biquad;
use crate::dsp::convolver::ConvolverView;
use crate::dsp::equalizer::FilterView;
use crate::dsp::impulse::ImpulseView;
use crate::dsp::multiband::CompanderView;
use crate::dsp::rack::{Rack, RackView};
use crate::dsp::room::RoomView;
use crate::dsp::spatializer::SpatialView;
use crate::dsp::surround::SurroundView;

verus! {

/// Both blocks are made of whole frames.
pub open spec fn whole_frames(a: Seq<u32>, b: Seq<u32>, channels: int) -> bool {
    &&& channels >= 0
    &&& channels > 0 ==> a.len() as int % channels == 0 && b.len() as int % channels == 0
}

/// The frames of blocks that are made of whole frames.
proof fn lemma_frames(a: Seq<u32>, b: Seq<u32>, channels: int)
    requires
        channels > 0,
        whole_frames(a, b, channels),
    ensures
        a.len() as int / channels * channels == a.len(),
        b.len() as int / channels * channels == b.len(),
        (a + b).len() as int / channels == a.len() as int / channels + b.len() as int / channels,
        (a + b).len() as int % channels == 0,
        0 <= a.len() as int / channels,
        0 <= b.len() as int / channels,
{
    let na = a.len() as int / channels;
    let nb = b.len() as int / channels;
    vstd::arithmetic::div_mod::lemma_fundamental_div_mod(a.len() as int, channels);
    vstd::arithmetic::div_mod::lemma_fundamental_div_mod(b.len() as int, channels);
    assert(na * channels == channels * na) by (nonlinear_arith);
    assert(nb * channels == channels * nb) by (nonlinear_arith);
    assert((na + nb) * channels == na * channels + nb * channels) by (nonlinear_arith);
    vstd::arithmetic::div_mod::lemma_fundamental_div_mod_converse(
        (a + b).len() as int,
        channels,
        na + nb,
        0,
    );
    vstd::arithmetic::div_mod::lemma_div_pos_is_pos(a.len() as int, channels);
    vstd::arithmetic::div_mod::lemma_div_pos_is_pos(b.len() as int, channels);
}

/// The first frames of a block whose first two channels go through an effect as a pair.
spec fn pairs<S>(
    s: S,
    block: Seq<u32>,
    channels: int,
    n: nat,
    next: spec_fn(S, u32, u32) -> S,
    out: spec_fn(S, u32, u32) -> (u32, u32),
) -> (S, Seq<u32>)
    decreases n,
{
    if n == 0 {
        (s, block)
    } else {
        let (t, b) = pairs(s, block, channels, (n - 1) as nat, next, out);
        let at = (n - 1) * channels;
        let (l, r) = out(t, b[at], b[at + 1]);
        (next(t, b[at], b[at + 1]), b.update(at, l).update(at + 1, r))
    }
}

/// The first samples of a block with a single channel.
spec fn singles<S>(
    s: S,
    block: Seq<u32>,
    n: nat,
    next: spec_fn(S, u32) -> S,
    out: spec_fn(S, u32) -> u32,
) -> (S, Seq<u32>)
    decreases n,
{
    if n == 0 {
        (s, block)
    } else {
        let (t, b) = singles(s, block, (n - 1) as nat, next, out);
        (next(t, b[n - 1]), b.update(n - 1, out(t, b[n - 1])))
    }
}

/// The first samples of a block of which every channel goes through an effect of its own.
spec fn strips<C>(
    cs: Seq<C>,
    block: Seq<u32>,
    channels: int,
    n: nat,
    next: spec_fn(C, u32) -> C,
    out: spec_fn(C, u32) -> u32,
) -> (Seq<C>, Seq<u32>)
    decreases n,
{
    if n == 0 {
        (cs, block)
    } else {
        let (k, b) = strips(cs, block, channels, (n - 1) as nat, next, out);
        let c = (n - 1) % channels;
        if c >= k.len() {
            (k, b)
        } else {
            (k.update(c, next(k[c], b[n - 1])), b.update(n - 1, out(k[c], b[n - 1])))
        }
    }
}

proof fn lemma_pairs_kept<S>(
    s: S,
    block: Seq<u32>,
    channels: int,
    n: nat,
    next: spec_fn(S, u32, u32) -> S,
    out: spec_fn(S, u32, u32) -> (u32, u32),
    p: spec_fn(S) -> bool,
)
    requires
        channels >= 2,
        n * channels <= block.len(),
        forall|t: S, l: u32, r: u32| p(#[trigger] next(t, l, r)) == p(t),
    ensures
        pairs(s, block, channels, n, next, out).1.len() == block.len(),
        p(pairs(s, block, channels, n, next, out).0) == p(s),
    decreases n,
{
    if n > 0 {
        let m = (n - 1) as nat;
        assert(m * channels + channels == n * channels) by (nonlinear_arith)
            requires
                m + 1 == n,
        ;
        assert(0 <= m * channels) by (nonlinear_arith)
            requires
                channels >= 2,
        ;
        lemma_pairs_kept(s, block, channels, (n - 1) as nat, next, out, p);
    }
}

proof fn lemma_pairs_front<S>(
    s: S,
    a: Seq<u32>,
    b: Seq<u32>,
    channels: int,
    n: nat,
    next: spec_fn(S, u32, u32) -> S,
    out: spec_fn(S, u32, u32) -> (u32, u32),
)
    requires
        channels >= 2,
        n * channels <= a.len(),
    ensures
        pairs(s, a + b, channels, n, next, out) == (
            pairs(s, a, channels, n, next, out).0,
            pairs(s, a, channels, n, next, out).1 + b,
        ),
    decreases n,
{
    if n > 0 {
        let m = (n - 1) as nat;
        assert(m * channels + channels == n * channels) by (nonlinear_arith)
            requires
                m + 1 == n,
        ;
        assert(0 <= m * channels) by (nonlinear_arith)
            requires
                channels >= 2,
        ;
        lemma_pairs_front(s, a, b, channels, m, next, out);
        lemma_pairs_kept(s, a, channels, m, next, out, |t: S| true);
        let (t, x) = pairs(s, a, channels, m, next, out);
        let at = m * channels;
        let (l, r) = out(t, x[at], x[at + 1]);
        assert((x + b)[at] == x[at]);
        assert((x + b)[at + 1] == x[at + 1]);
        assert((x + b).update(at, l).update(at + 1, r) =~= x.update(at, l).update(at + 1, r) + b);
    } else {
        assert(a + b =~= pairs(s, a, channels, 0, next, out).1 + b);
    }
}

proof fn lemma_pairs_back<S>(
    s: S,
    a: Seq<u32>,
    b: Seq<u32>,
    channels: int,
    front: nat,
    n: nat,
    next: spec_fn(S, u32, u32) -> S,
    out: spec_fn(S, u32, u32) -> (u32, u32),
)
    requires
        channels >= 2,
        front * channels == a.len(),
        n * channels <= b.len(),
    ensures
        ({
            let (t, x) = pairs(s, a, channels, front, next, out);
            let (u, y) = pairs(t, b, channels, n, next, out);
            pairs(s, a + b, channels, front + n, next, out) == (u, x + y)
        }),
    decreases n,
{
    let (t, x) = pairs(s, a, channels, front, next, out);
    lemma_pairs_kept(s, a, channels, front, next, out, |t: S| true);
    if n == 0 {
        lemma_pairs_front(s, a, b, channels, front, next, out);
    } else {
        let m = (n - 1) as nat;
        assert(m * channels + channels == n * channels) by (nonlinear_arith)
            requires
                m + 1 == n,
        ;
        assert(0 <= m * channels) by (nonlinear_arith)
            requires
                channels >= 2,
        ;
        assert((front + m) * channels == a.len() + m * channels) by (nonlinear_arith)
            requires
                front * channels == a.len(),
        ;
        lemma_pairs_back(s, a, b, channels, front, m, next, out);
        lemma_pairs_kept(t, b, channels, m, next, out, |t: S| true);
        let (u, y) = pairs(t, b, channels, m, next, out);
        let at = m * channels;
        let (l, r) = out(u, y[at], y[at + 1]);
        assert((front + n - 1) as nat == front + m);
        assert((x + y)[a.len() + at] == y[at]);
        assert((x + y)[a.len() + at + 1] == y[at + 1]);
        assert((x + y).update(a.len() + at, l).update(a.len() + at + 1, r) =~= x + y.update(
            at,
            l,
        ).update(at + 1, r));
    }
}

/// Pairs may be cut, and what the effect keeps of itself it keeps in both parts.
proof fn lemma_pairs_cut<S>(
    s: S,
    a: Seq<u32>,
    b: Seq<u32>,
    channels: int,
    next: spec_fn(S, u32, u32) -> S,
    out: spec_fn(S, u32, u32) -> (u32, u32),
    p: spec_fn(S) -> bool,
)
    requires
        channels >= 2,
        whole_frames(a, b, channels),
        forall|t: S, l: u32, r: u32| p(#[trigger] next(t, l, r)) == p(t),
    ensures
        ({
            let n = channels as nat;
            let (t, x) = pairs(s, a, channels, a.len() / n, next, out);
            let (u, y) = pairs(t, b, channels, b.len() / n, next, out);
            &&& pairs(s, a + b, channels, (a + b).len() / n, next, out) == (u, x + y)
            &&& x.len() == a.len()
            &&& y.len() == b.len()
            &&& p(t) == p(s)
        }),
{
    let n = channels as nat;
    lemma_frames(a, b, channels);
    let t = pairs(s, a, channels, a.len() / n, next, out).0;
    lemma_pairs_kept(s, a, channels, a.len() / n, next, out, p);
    lemma_pairs_kept(t, b, channels, b.len() / n, next, out, p);
    lemma_pairs_back(s, a, b, channels, a.len() / n, b.len() / n, next, out);
}

proof fn lemma_singles_kept<S>(
    s: S,
    block: Seq<u32>,
    n: nat,
    next: spec_fn(S, u32) -> S,
    out: spec_fn(S, u32) -> u32,
    p: spec_fn(S) -> bool,
)
    requires
        n <= block.len(),
        forall|t: S, x: u32| p(#[trigger] next(t, x)) == p(t),
    ensures
        singles(s, block, n, next, out).1.len() == block.len(),
        p(singles(s, block, n, next, out).0) == p(s),
    decreases n,
{
    if n > 0 {
        lemma_singles_kept(s, block, (n - 1) as nat, next, out, p);
    }
}

proof fn lemma_singles_front<S>(
    s: S,
    a: Seq<u32>,
    b: Seq<u32>,
    n: nat,
    next: spec_fn(S, u32) -> S,
    out: spec_fn(S, u32) -> u32,
)
    requires
        n <= a.len(),
    ensures
        singles(s, a + b, n, next, out) == (
            singles(s, a, n, next, out).0,
            singles(s, a, n, next, out).1 + b,
        ),
    decreases n,
{
    if n > 0 {
        let m = (n - 1) as nat;
        lemma_singles_front(s, a, b, m, next, out);
        lemma_singles_kept(s, a, m, next, out, |t: S| true);
        let (t, x) = singles(s, a, m, next, out);
        let v = out(t, x[m as int]);
        assert((x + b)[m as int] == x[m as int]);
        assert((x + b).update(m as int, v) =~= x.update(m as int, v) + b);
    }
}

proof fn lemma_singles_cut<S>(
    s: S,
    a: Seq<u32>,
    b: Seq<u32>,
    n: nat,
    next: spec_fn(S, u32) -> S,
    out: spec_fn(S, u32) -> u32,
    p: spec_fn(S) -> bool,
)
    requires
        n <= b.len(),
        forall|t: S, x: u32| p(#[trigger] next(t, x)) == p(t),
    ensures
        ({
            let (t, x) = singles(s, a, a.len(), next, out);
            let (u, y) = singles(t, b, n, next, out);
            &&& singles(s, a + b, a.len() + n, next, out) == (u, x + y)
            &&& x.len() == a.len()
            &&& y.len() == b.len()
            &&& p(t) == p(s)
        }),
    decreases n,
{
    let (t, x) = singles(s, a, a.len(), next, out);
    lemma_singles_kept(s, a, a.len(), next, out, p);
    lemma_singles_kept(t, b, n, next, out, p);
    if n == 0 {
        lemma_singles_front(s, a, b, a.len(), next, out);
    } else {
        let m = (n - 1) as nat;
        lemma_singles_cut(s, a, b, m, next, out, p);
        let (u, y) = singles(t, b, m, next, out);
        let v = out(u, y[m as int]);
        assert((a.len() + n - 1) as nat == a.len() + m);
        assert((x + y)[a.len() as int + m] == y[m as int]);
        assert((x + y).update(a.len() as int + m, v) =~= x + y.update(m as int, v));
    }
}

proof fn lemma_strips_kept<C>(
    cs: Seq<C>,
    block: Seq<u32>,
    channels: int,
    n: nat,
    next: spec_fn(C, u32) -> C,
    out: spec_fn(C, u32) -> u32,
)
    requires
        channels > 0,
        n <= block.len(),
    ensures
        strips(cs, block, channels, n, next, out).1.len() == block.len(),
        strips(cs, block, channels, n, next, out).0.len() == cs.len(),
    decreases n,
{
    if n > 0 {
        lemma_strips_kept(cs, block, channels, (n - 1) as nat, next, out);
    }
}

proof fn lemma_strips_front<C>(
    cs: Seq<C>,
    a: Seq<u32>,
    b: Seq<u32>,
    channels: int,
    n: nat,
    next: spec_fn(C, u32) -> C,
    out: spec_fn(C, u32) -> u32,
)
    requires
        channels > 0,
        n <= a.len(),
    ensures
        strips(cs, a + b, channels, n, next, out) == (
            strips(cs, a, channels, n, next, out).0,
            strips(cs, a, channels, n, next, out).1 + b,
        ),
    decreases n,
{
    if n > 0 {
        let m = (n - 1) as nat;
        lemma_strips_front(cs, a, b, channels, m, next, out);
        lemma_strips_kept(cs, a, channels, m, next, out);
        let (k, x) = strips(cs, a, channels, m, next, out);
        let v = out(k[m as int % channels], x[m as int]);
        assert((x + b)[m as int] == x[m as int]);
        assert((x + b).update(m as int, v) =~= x.update(m as int, v) + b);
    }
}

proof fn lemma_strips_back<C>(
    cs: Seq<C>,
    a: Seq<u32>,
    b: Seq<u32>,
    channels: int,
    n: nat,
    next: spec_fn(C, u32) -> C,
    out: spec_fn(C, u32) -> u32,
)
    requires
        channels > 0,
        a.len() as int % channels == 0,
        n <= b.len(),
    ensures
        ({
            let (k, x) = strips(cs, a, channels, a.len(), next, out);
            let (u, y) = strips(k, b, channels, n, next, out);
            &&& strips(cs, a + b, channels, a.len() + n, next, out) == (u, x + y)
            &&& x.len() == a.len()
            &&& y.len() == b.len()
        }),
    decreases n,
{
    let (k, x) = strips(cs, a, channels, a.len(), next, out);
    lemma_strips_kept(cs, a, channels, a.len(), next, out);
    lemma_strips_kept(k, b, channels, n, next, out);
    if n == 0 {
        lemma_strips_front(cs, a, b, channels, a.len(), next, out);
    } else {
        let m = (n - 1) as nat;
        lemma_strips_back(cs, a, b, channels, m, next, out);
        lemma_strips_kept(k, b, channels, m, next, out);
        let (u, y) = strips(k, b, channels, m, next, out);
        let q = a.len() as int / channels;
        vstd::arithmetic::div_mod::lemma_fundamental_div_mod(a.len() as int, channels);
        vstd::arithmetic::div_mod::lemma_mod_multiples_vanish(q, m as int, channels);
        assert((a.len() as int + m) % channels == m as int % channels);
        let v = out(u[m as int % channels], y[m as int]);
        assert((a.len() + n - 1) as nat == a.len() + m);
        assert((x + y)[a.len() as int + m] == y[m as int]);
        assert((x + y).update(a.len() as int + m, v) =~= x + y.update(m as int, v));
    }
}

proof fn lemma_filtered_is_strips(
    bank: Seq<Seq<Biquad>>,
    gain: u32,
    active: nat,
    block: Seq<u32>,
    channels: int,
    n: nat,
    g: spec_fn(Calc, u32, u32) -> u32,
    next: spec_fn(Seq<Biquad>, u32) -> Seq<Biquad>,
    out: spec_fn(Seq<Biquad>, u32) -> u32,
)
    requires
        next == (|k: Seq<Biquad>, x: u32|
            crate::dsp::biquad::cascade_next(k, active, g(Calc::Mul, x, gain), g)),
        out == (|k: Seq<Biquad>, x: u32| crate::dsp::equalizer::filtered(k, gain, active, x, g)),
    ensures
        crate::dsp::equalizer::filtered_block(bank, gain, active, block, channels, n, g) == strips(
            bank,
            block,
            channels,
            n,
            next,
            out,
        ),
    decreases n,
{
    if n > 0 {
        lemma_filtered_is_strips(
            bank,
            gain,
            active,
            block,
            channels,
            (n - 1) as nat,
            g,
            next,
            out,
        );
    }
}

/// The filters of an equalizer or a correction may be handed their audio in parts.
pub proof fn law_filters_do_not_mind_cuts(
    bank: Seq<Seq<Biquad>>,
    gain: u32,
    active: nat,
    a: Seq<u32>,
    b: Seq<u32>,
    channels: int,
    g: spec_fn(Calc, u32, u32) -> u32,
)
    requires
        channels > 0,
        whole_frames(a, b, channels),
    ensures
        ({
            let (k, x) = crate::dsp::equalizer::filtered_block(
                bank,
                gain,
                active,
                a,
                channels,
                a.len(),
                g,
            );
            let (u, y) = crate::dsp::equalizer::filtered_block(
                k,
                gain,
                active,
                b,
                channels,
                b.len(),
                g,
            );
            &&& crate::dsp::equalizer::filtered_block(
                bank,
                gain,
                active,
                a + b,
                channels,
                (a + b).len(),
                g,
            ) == (u, x + y)
            &&& x.len() == a.len()
            &&& y.len() == b.len()
        }),
{
    let next = |k: Seq<Biquad>, x: u32|
        crate::dsp::biquad::cascade_next(k, active, g(Calc::Mul, x, gain), g);
    let out = |k: Seq<Biquad>, x: u32| crate::dsp::equalizer::filtered(k, gain, active, x, g);
    lemma_filtered_is_strips(bank, gain, active, a, channels, a.len(), g, next, out);
    let k = strips(bank, a, channels, a.len(), next, out).0;
    lemma_filtered_is_strips(k, gain, active, b, channels, b.len(), g, next, out);
    lemma_filtered_is_strips(bank, gain, active, a + b, channels, (a + b).len(), g, next, out);
    lemma_strips_back(bank, a, b, channels, b.len(), next, out);
}

proof fn lemma_bass_is_strips(
    s: BassSettings,
    cs: Seq<BassChannel>,
    block: Seq<u32>,
    channels: int,
    n: nat,
    g: spec_fn(Calc, u32, u32) -> u32,
    next: spec_fn(BassChannel, u32) -> BassChannel,
    out: spec_fn(BassChannel, u32) -> u32,
)
    requires
        next == (|k: BassChannel, x: u32| crate::dsp::bass::bass_next(s, k, x, g)),
        out == (|k: BassChannel, x: u32| crate::dsp::bass::bass_out(s, k, x, g)),
    ensures
        crate::dsp::bass::bass_block(s, cs, block, channels, n, g) == strips(
            cs,
            block,
            channels,
            n,
            next,
            out,
        ),
    decreases n,
{
    if n > 0 {
        lemma_bass_is_strips(s, cs, block, channels, (n - 1) as nat, g, next, out);
    }
}

/// The bass boost may be handed its audio in parts.
pub proof fn law_the_bass_boost_does_not_mind_cuts(
    s: BassSettings,
    cs: Seq<BassChannel>,
    a: Seq<u32>,
    b: Seq<u32>,
    channels: int,
    g: spec_fn(Calc, u32, u32) -> u32,
)
    requires
        channels > 0,
        whole_frames(a, b, channels),
    ensures
        ({
            let (k, x) = crate::dsp::bass::bass_block(s, cs, a, channels, a.len(), g);
            let (u, y) = crate::dsp::bass::bass_block(s, k, b, channels, b.len(), g);
            &&& crate::dsp::bass::bass_block(s, cs, a + b, channels, (a + b).len(), g) == (u, x + y)
            &&& x.len() == a.len()
            &&& y.len() == b.len()
        }),
{
    let next = |k: BassChannel, x: u32| crate::dsp::bass::bass_next(s, k, x, g);
    let out = |k: BassChannel, x: u32| crate::dsp::bass::bass_out(s, k, x, g);
    lemma_bass_is_strips(s, cs, a, channels, a.len(), g, next, out);
    let k = strips(cs, a, channels, a.len(), next, out).0;
    lemma_bass_is_strips(s, k, b, channels, b.len(), g, next, out);
    lemma_bass_is_strips(s, cs, a + b, channels, (a + b).len(), g, next, out);
    lemma_strips_back(cs, a, b, channels, b.len(), next, out);
}

proof fn lemma_the_spatializer_is_pairs(
    s: SpatialView,
    block: Seq<u32>,
    channels: int,
    n: nat,
    g: spec_fn(Calc, u32, u32) -> u32,
    next: spec_fn(SpatialView, u32, u32) -> SpatialView,
    out: spec_fn(SpatialView, u32, u32) -> (u32, u32),
)
    requires
        channels >= 2,
        next == (|t: SpatialView, l: u32, r: u32| crate::dsp::spatializer::spatial_next(t, l, r, g)),
        out == (|t: SpatialView, l: u32, r: u32| crate::dsp::spatializer::spatial_out(t, l, r, g)),
    ensures
        crate::dsp::spatializer::spatial_block(s, block, channels, n, g) == pairs(
            s,
            block,
            channels,
            n,
            next,
            out,
        ),
    decreases n,
{
    if n > 0 {
        lemma_the_spatializer_is_pairs(s, block, channels, (n - 1) as nat, g, next, out);
    }
}

/// The spatializer may be handed its audio in parts.
pub proof fn law_the_spatializer_does_not_mind_cuts(
    v: SpatialView,
    a: Seq<u32>,
    b: Seq<u32>,
    channels: int,
    g: spec_fn(Calc, u32, u32) -> u32,
)
    requires
        whole_frames(a, b, channels),
    ensures
        ({
            let (t, x) = crate::dsp::rack::spatializer_run(v, a, channels, g);
            let (u, y) = crate::dsp::rack::spatializer_run(t, b, channels, g);
            &&& crate::dsp::rack::spatializer_run(v, a + b, channels, g) == (u, x + y)
            &&& x.len() == a.len()
            &&& y.len() == b.len()
        }),
{
    if !crate::dsp::spatializer::bypassed(v, channels) {
        let next = |t: SpatialView, l: u32, r: u32| crate::dsp::spatializer::spatial_next(t, l, r, g);
        let out = |t: SpatialView, l: u32, r: u32| crate::dsp::spatializer::spatial_out(t, l, r, g);
        let n = channels as nat;
        lemma_the_spatializer_is_pairs(v, a, channels, a.len() / n, g, next, out);
        let t = pairs(v, a, channels, a.len() / n, next, out).0;
        lemma_the_spatializer_is_pairs(t, b, channels, b.len() / n, g, next, out);
        lemma_the_spatializer_is_pairs(v, a + b, channels, (a + b).len() / n, g, next, out);
        lemma_pairs_cut(v, a, b, channels, next, out, |t: SpatialView| crate::dsp::spatializer::bypassed(t, channels));
    }
}

proof fn lemma_the_ring_is_pairs(
    s: SurroundView,
    block: Seq<u32>,
    channels: int,
    n: nat,
    g: spec_fn(Calc, u32, u32) -> u32,
    next: spec_fn(SurroundView, u32, u32) -> SurroundView,
    out: spec_fn(SurroundView, u32, u32) -> (u32, u32),
)
    requires
        channels >= 2,
        next == (|t: SurroundView, l: u32, r: u32| crate::dsp::surround::surround_next(t, l, r, g)),
        out == (|t: SurroundView, l: u32, r: u32| crate::dsp::surround::surround_out(t, l, r, g)),
    ensures
        crate::dsp::surround::surround_block(s, block, channels, n, g) == pairs(
            s,
            block,
            channels,
            n,
            next,
            out,
        ),
    decreases n,
{
    if n > 0 {
        lemma_the_ring_is_pairs(s, block, channels, (n - 1) as nat, g, next, out);
    }
}

/// The ring of speakers may be handed its audio in parts.
pub proof fn law_the_ring_does_not_mind_cuts(
    v: SurroundView,
    a: Seq<u32>,
    b: Seq<u32>,
    channels: int,
    g: spec_fn(Calc, u32, u32) -> u32,
)
    requires
        whole_frames(a, b, channels),
    ensures
        ({
            let (t, x) = crate::dsp::rack::surround_run(v, a, channels, g);
            let (u, y) = crate::dsp::rack::surround_run(t, b, channels, g);
            &&& crate::dsp::rack::surround_run(v, a + b, channels, g) == (u, x + y)
            &&& x.len() == a.len()
            &&& y.len() == b.len()
        }),
{
    if channels >= 2 && crate::dsp::surround::heard(v) {
        let next = |t: SurroundView, l: u32, r: u32| crate::dsp::surround::surround_next(t, l, r, g);
        let out = |t: SurroundView, l: u32, r: u32| crate::dsp::surround::surround_out(t, l, r, g);
        let n = channels as nat;
        lemma_the_ring_is_pairs(v, a, channels, a.len() / n, g, next, out);
        let t = pairs(v, a, channels, a.len() / n, next, out).0;
        lemma_the_ring_is_pairs(t, b, channels, b.len() / n, g, next, out);
        lemma_the_ring_is_pairs(v, a + b, channels, (a + b).len() / n, g, next, out);
        lemma_pairs_cut(v, a, b, channels, next, out, |t: SurroundView| crate::dsp::surround::heard(t));
    }
}

proof fn lemma_room_is_pairs(
    s: RoomView,
    block: Seq<u32>,
    channels: int,
    n: nat,
    g: spec_fn(Calc, u32, u32) -> u32,
    next: spec_fn(RoomView, u32, u32) -> RoomView,
    out: spec_fn(RoomView, u32, u32) -> (u32, u32),
)
    requires
        channels >= 2,
        next == (|t: RoomView, l: u32, r: u32| crate::dsp::room::room_next(t, l, r, g)),
        out == (|t: RoomView, l: u32, r: u32| crate::dsp::room::room_out(t, l, r, g)),
    ensures
        crate::dsp::room::room_block(s, block, channels, n, g) == pairs(
            s,
            block,
            channels,
            n,
            next,
            out,
        ),
    decreases n,
{
    if n > 0 {
        lemma_room_is_pairs(s, block, channels, (n - 1) as nat, g, next, out);
    }
}

/// A single sample behind a room: the mean of both sides.
spec fn room_mean(t: RoomView, x: u32, g: spec_fn(Calc, u32, u32) -> u32) -> u32 {
    let (l, r) = crate::dsp::room::room_out(t, x, x, g);
    g(Calc::Mul, g(Calc::Add, l, r), crate::dsp::arith::HALF_BITS)
}

proof fn lemma_room_is_singles(
    s: RoomView,
    block: Seq<u32>,
    n: nat,
    g: spec_fn(Calc, u32, u32) -> u32,
    next: spec_fn(RoomView, u32) -> RoomView,
    out: spec_fn(RoomView, u32) -> u32,
)
    requires
        next == (|t: RoomView, x: u32| crate::dsp::room::room_next(t, x, x, g)),
        out == (|t: RoomView, x: u32| room_mean(t, x, g)),
    ensures
        crate::dsp::room::room_block(s, block, 1, n, g) == singles(s, block, n, next, out),
    decreases n,
{
    if n > 0 {
        lemma_room_is_singles(s, block, (n - 1) as nat, g, next, out);
        assert((n - 1) * 1 == n - 1);
    }
}

/// A room may be handed its audio in parts.
pub proof fn law_the_room_does_not_mind_cuts(
    v: RoomView,
    a: Seq<u32>,
    b: Seq<u32>,
    channels: int,
    g: spec_fn(Calc, u32, u32) -> u32,
)
    requires
        whole_frames(a, b, channels),
    ensures
        ({
            let (t, x) = crate::dsp::rack::room_run(v, a, channels, g);
            let (u, y) = crate::dsp::rack::room_run(t, b, channels, g);
            &&& crate::dsp::rack::room_run(v, a + b, channels, g) == (u, x + y)
            &&& x.len() == a.len()
            &&& y.len() == b.len()
        }),
{
    let n = channels as nat;
    if crate::dsp::room::room_bypassed(v, channels) {
    } else if channels >= 2 {
        let next = |t: RoomView, l: u32, r: u32| crate::dsp::room::room_next(t, l, r, g);
        let out = |t: RoomView, l: u32, r: u32| crate::dsp::room::room_out(t, l, r, g);
        lemma_room_is_pairs(v, a, channels, a.len() / n, g, next, out);
        let t = pairs(v, a, channels, a.len() / n, next, out).0;
        lemma_room_is_pairs(t, b, channels, b.len() / n, g, next, out);
        lemma_room_is_pairs(v, a + b, channels, (a + b).len() / n, g, next, out);
        lemma_pairs_cut(
            v,
            a,
            b,
            channels,
            next,
            out,
            |t: RoomView| crate::dsp::room::room_bypassed(t, channels),
        );
    } else {
        let next = |t: RoomView, x: u32| crate::dsp::room::room_next(t, x, x, g);
        let out = |t: RoomView, x: u32| room_mean(t, x, g);
        lemma_frames(a, b, channels);
        assert(a.len() / n == a.len() && b.len() / n == b.len()) by (nonlinear_arith)
            requires
                n == 1,
        ;
        lemma_room_is_singles(v, a, a.len(), g, next, out);
        let t = singles(v, a, a.len(), next, out).0;
        lemma_room_is_singles(t, b, b.len(), g, next, out);
        lemma_room_is_singles(v, a + b, (a + b).len(), g, next, out);
        lemma_singles_cut(
            v,
            a,
            b,
            b.len(),
            next,
            out,
            |t: RoomView| crate::dsp::room::room_bypassed(t, channels),
        );
    }
}

proof fn lemma_compander_is_pairs(
    s: CompanderView,
    block: Seq<u32>,
    channels: int,
    n: nat,
    g: spec_fn(Calc, u32, u32) -> u32,
    next: spec_fn(CompanderView, u32, u32) -> CompanderView,
    out: spec_fn(CompanderView, u32, u32) -> (u32, u32),
)
    requires
        channels >= 2,
        next == (|t: CompanderView, l: u32, r: u32|
            crate::dsp::multiband::compander_next(t, l, r, g)),
        out == (|t: CompanderView, l: u32, r: u32|
            crate::dsp::multiband::compander_out(t, l, r, g)),
    ensures
        ({
            let run = crate::dsp::multiband::compander_block(s, block, channels, n, g);
            (run.state, run.buffer) == pairs(s, block, channels, n, next, out)
        }),
    decreases n,
{
    if n > 0 {
        lemma_compander_is_pairs(s, block, channels, (n - 1) as nat, g, next, out);
    }
}

proof fn lemma_compander_is_singles(
    s: CompanderView,
    block: Seq<u32>,
    n: nat,
    g: spec_fn(Calc, u32, u32) -> u32,
    next: spec_fn(CompanderView, u32) -> CompanderView,
    out: spec_fn(CompanderView, u32) -> u32,
)
    requires
        next == (|t: CompanderView, x: u32|
            crate::dsp::multiband::compander_next_mono(t, x, g)),
        out == (|t: CompanderView, x: u32| crate::dsp::multiband::compander_out_mono(t, x, g)),
    ensures
        ({
            let run = crate::dsp::multiband::compander_block_mono(s, block, n, g);
            (run.state, run.buffer) == singles(s, block, n, next, out)
        }),
    decreases n,
{
    if n > 0 {
        lemma_compander_is_singles(s, block, (n - 1) as nat, g, next, out);
    }
}

/// The compander may be handed its audio in parts; the meter shows the last part alone.
pub proof fn law_the_compander_does_not_mind_cuts(
    v: CompanderView,
    a: Seq<u32>,
    b: Seq<u32>,
    channels: int,
    g: spec_fn(Calc, u32, u32) -> u32,
)
    requires
        whole_frames(a, b, channels),
    ensures
        ({
            let (t, _, x) = crate::dsp::rack::compander_run(v, a, channels, g);
            let (u, _, y) = crate::dsp::rack::compander_run(t, b, channels, g);
            let (w, _, z) = crate::dsp::rack::compander_run(v, a + b, channels, g);
            &&& w == u
            &&& z == x + y
            &&& x.len() == a.len()
            &&& y.len() == b.len()
        }),
{
    let n = channels as nat;
    if !v.enabled || channels == 0 {
    } else if channels >= 2 {
        let next = |t: CompanderView, l: u32, r: u32|
            crate::dsp::multiband::compander_next(t, l, r, g);
        let out = |t: CompanderView, l: u32, r: u32|
            crate::dsp::multiband::compander_out(t, l, r, g);
        lemma_compander_is_pairs(v, a, channels, a.len() / n, g, next, out);
        let t = pairs(v, a, channels, a.len() / n, next, out).0;
        lemma_compander_is_pairs(t, b, channels, b.len() / n, g, next, out);
        lemma_compander_is_pairs(v, a + b, channels, (a + b).len() / n, g, next, out);
        lemma_pairs_cut(v, a, b, channels, next, out, |t: CompanderView| t.enabled);
    } else {
        let next = |t: CompanderView, x: u32|
            crate::dsp::multiband::compander_next_mono(t, x, g);
        let out = |t: CompanderView, x: u32| crate::dsp::multiband::compander_out_mono(t, x, g);
        lemma_compander_is_singles(v, a, a.len(), g, next, out);
        let t = singles(v, a, a.len(), next, out).0;
        lemma_compander_is_singles(t, b, b.len(), g, next, out);
        lemma_compander_is_singles(v, a + b, (a + b).len(), g, next, out);
        lemma_singles_cut(v, a, b, b.len(), next, out, |t: CompanderView| t.enabled);
    }
}

/// What is transformed back has the size of a window.
pub open spec fn makes_windows(b: spec_fn(Seq<(u32, u32)>) -> Seq<u32>) -> bool {
    forall|s: Seq<(u32, u32)>| s.len() == 257 ==> (#[trigger] b(s)).len() == 512
}

/// Every sample that came in was answered, and every full block was computed.
pub open spec fn answered(l: ConvolverView) -> bool {
    &&& l.stream.emitted == l.stream.inputs.len()
    &&& 0 <= l.stream.inputs.len() - l.stream.wet.len() < 256
}

proof fn lemma_convolved(
    l: ConvolverView,
    input: Seq<u32>,
    ir: Seq<Seq<(u32, u32)>>,
    t: spec_fn(Seq<u32>) -> Seq<(u32, u32)>,
    b: spec_fn(Seq<(u32, u32)>) -> Seq<u32>,
    g: spec_fn(Calc, u32, u32) -> u32,
)
    requires
        answered(l),
        makes_windows(b),
    ensures
        ({
            let r = crate::dsp::convolver::convolved(l, input, ir, t, b, g);
            &&& answered(r)
            &&& r.stream.emitted == l.stream.emitted + input.len()
            &&& l.stream.wet.is_prefix_of(r.stream.wet)
        }),
    decreases input.len(),
{
    if input.len() > 0 {
        let rest = input.drop_last();
        lemma_convolved(l, rest, ir, t, b, g);
        let before = crate::dsp::convolver::convolved(l, rest, ir, t, b, g);
        let after = crate::dsp::convolver::convolved(l, input, ir, t, b, g);
        assert(before.stream.wet.is_prefix_of(after.stream.wet));
    }
}

/// A convolver may be handed its samples in parts.
pub proof fn law_convolution_does_not_mind_cuts(
    l: ConvolverView,
    x: Seq<u32>,
    y: Seq<u32>,
    ir: Seq<Seq<(u32, u32)>>,
    t: spec_fn(Seq<u32>) -> Seq<(u32, u32)>,
    b: spec_fn(Seq<(u32, u32)>) -> Seq<u32>,
    g: spec_fn(Calc, u32, u32) -> u32,
)
    ensures
        crate::dsp::convolver::convolved(l, x + y, ir, t, b, g)
            == crate::dsp::convolver::convolved(
            crate::dsp::convolver::convolved(l, x, ir, t, b, g),
            y,
            ir,
            t,
            b,
            g,
        ),
    decreases y.len(),
{
    if y.len() == 0 {
        assert(x + y =~= x);
    } else {
        law_convolution_does_not_mind_cuts(l, x, y.drop_last(), ir, t, b, g);
        assert((x + y).drop_last() =~= x + y.drop_last());
        assert((x + y).last() == y.last());
    }
}

/// The lines of a convolver stage in front of a block are all answered.
pub open spec fn lines_answered(v: ImpulseView) -> bool {
    forall|c: int| 0 <= c < v.lines.len() ==> answered(#[trigger] v.lines[c])
}

proof fn lemma_channel_joined(a: Seq<u32>, b: Seq<u32>, c: int, channels: int)
    requires
        0 <= c < channels,
        whole_frames(a, b, channels),
    ensures
        crate::dsp::impulse::channel_samples(a + b, c, channels)
            == crate::dsp::impulse::channel_samples(a, c, channels)
            + crate::dsp::impulse::channel_samples(b, c, channels),
{
    lemma_frames(a, b, channels);
    let na = a.len() as int / channels;
    let nb = b.len() as int / channels;
    let both = crate::dsp::impulse::channel_samples(a + b, c, channels);
    let parts = crate::dsp::impulse::channel_samples(a, c, channels)
        + crate::dsp::impulse::channel_samples(b, c, channels);
    assert forall|n: int| 0 <= n < na + nb implies both[n] == parts[n] by {
        if n < na {
            crate::dsp::arith::lemma_frame_inside(n, a.len() as int, channels);
        } else {
            crate::dsp::arith::lemma_frame_inside(n - na, b.len() as int, channels);
            assert(n * channels == a.len() + (n - na) * channels) by (nonlinear_arith)
                requires
                    na * channels == a.len(),
            ;
        }
    }
    assert(both =~= parts);
}

/// The convolver stage may be handed its audio in parts.
pub proof fn law_the_convolver_does_not_mind_cuts(
    v: ImpulseView,
    x: Seq<u32>,
    y: Seq<u32>,
    channels: int,
    t: spec_fn(Seq<u32>) -> Seq<(u32, u32)>,
    b: spec_fn(Seq<(u32, u32)>) -> Seq<u32>,
    g: spec_fn(Calc, u32, u32) -> u32,
)
    requires
        whole_frames(x, y, channels),
        lines_answered(v),
        makes_windows(b),
    ensures
        ({
            let (v1, p) = crate::dsp::impulse::impulse_block(v, x, channels, t, b, g);
            let (v2, q) = crate::dsp::impulse::impulse_block(v1, y, channels, t, b, g);
            &&& crate::dsp::impulse::impulse_block(v, x + y, channels, t, b, g) == (v2, p + q)
            &&& p.len() == x.len()
            &&& q.len() == y.len()
            &&& lines_answered(v1)
        }),
{
    if !crate::dsp::impulse::passes(v, channels) {
        let (v1, p) = crate::dsp::impulse::impulse_block(v, x, channels, t, b, g);
        let (v2, q) = crate::dsp::impulse::impulse_block(v1, y, channels, t, b, g);
        let (w, r) = crate::dsp::impulse::impulse_block(v, x + y, channels, t, b, g);
        let first = crate::dsp::impulse::lines_for(v, channels);
        assert(crate::dsp::impulse::lines_for(v1, channels) == v1.lines);
        assert forall|c: int| 0 <= c < channels implies ({
            &&& answered(#[trigger] first[c])
            &&& answered(v1.lines[c])
            &&& v1.lines[c].stream.emitted == first[c].stream.emitted + x.len() as int / channels
            &&& w.lines[c] == v2.lines[c]
            &&& v1.lines[c].stream.wet.is_prefix_of(w.lines[c].stream.wet)
        }) by {
            let ir = crate::dsp::impulse::response_for(v.response, c);
            let cx = crate::dsp::impulse::channel_samples(x, c, channels);
            let cy = crate::dsp::impulse::channel_samples(y, c, channels);
            if v.lines.len() == channels {
                assert(first[c] == v.lines[c]);
            }
            lemma_frames(x, y, channels);
            lemma_convolved(first[c], cx, ir, t, b, g);
            lemma_convolved(v1.lines[c], cy, ir, t, b, g);
            law_convolution_does_not_mind_cuts(first[c], cx, cy, ir, t, b, g);
            lemma_channel_joined(x, y, c, channels);
        }
        assert(w.lines =~= v2.lines);
        assert forall|c: int| 0 <= c < v1.lines.len() implies answered(#[trigger] v1.lines[c]) by {
            assert(answered(first[c]));
        }
        assert forall|i: int| 0 <= i < x.len() + y.len() implies r[i] == (p + q)[i] by {
            lemma_frames(x, y, channels);
            let nx = x.len() as int / channels;
            let ny = y.len() as int / channels;
            assert((x + y).len() as int / channels * channels == x.len() + y.len())
                by (nonlinear_arith)
                requires
                    (x + y).len() as int / channels == nx + ny,
                    nx * channels == x.len(),
                    ny * channels == y.len(),
            ;
            if i < x.len() {
                crate::dsp::impulse::lemma_frame_of(i, nx, channels);
                let c = i % channels;
                assert(answered(first[c]));
                assert((x + y)[i] == x[i]);
                let at = first[c].stream.emitted + i / channels;
                if at >= 256 {
                    assert(v1.lines[c].stream.wet[at - 256] == w.lines[c].stream.wet[at - 256]);
                }
            } else {
                let j = i - x.len();
                crate::dsp::impulse::lemma_frame_of(j, ny, channels);
                crate::dsp::impulse::lemma_place(nx + j / channels, j % channels, channels);
                assert((nx + j / channels) * channels == x.len() + j / channels * channels)
                    by (nonlinear_arith)
                    requires
                        nx * channels == x.len(),
                ;
                let c = j % channels;
                assert(answered(first[c]));
                assert((x + y)[i] == y[j]);
            }
        }
        assert(r =~= p + q);
    }
}

proof fn lemma_headphone_cut(
    v: FilterView,
    x: Seq<u32>,
    y: Seq<u32>,
    channels: int,
    g: spec_fn(Calc, u32, u32) -> u32,
)
    requires
        whole_frames(x, y, channels),
    ensures
        ({
            let (v1, p) = crate::dsp::rack::headphone_run(v, x, channels, g);
            let (v2, q) = crate::dsp::rack::headphone_run(v1, y, channels, g);
            &&& crate::dsp::rack::headphone_run(v, x + y, channels, g) == (v2, p + q)
            &&& p.len() == x.len()
            &&& q.len() == y.len()
        }),
{
    if channels > 0 {
        law_filters_do_not_mind_cuts(v.bank, v.gain, v.active, x, y, channels, g);
    }
}

proof fn lemma_eq_cut(
    v: FilterView,
    x: Seq<u32>,
    y: Seq<u32>,
    channels: int,
    g: spec_fn(Calc, u32, u32) -> u32,
)
    requires
        whole_frames(x, y, channels),
    ensures
        ({
            let (v1, p) = crate::dsp::rack::eq_run(v, x, channels, g);
            let (v2, q) = crate::dsp::rack::eq_run(v1, y, channels, g);
            &&& crate::dsp::rack::eq_run(v, x + y, channels, g) == (v2, p + q)
            &&& p.len() == x.len()
            &&& q.len() == y.len()
        }),
{
    if channels > 0 {
        law_filters_do_not_mind_cuts(
            v.bank,
            v.gain,
            crate::dsp::equalizer::EQ_BANDS as nat,
            x,
            y,
            channels,
            g,
        );
    }
}

proof fn lemma_bass_cut(
    v: (BassSettings, Seq<BassChannel>),
    x: Seq<u32>,
    y: Seq<u32>,
    channels: int,
    g: spec_fn(Calc, u32, u32) -> u32,
)
    requires
        whole_frames(x, y, channels),
    ensures
        ({
            let (v1, p) = crate::dsp::rack::bass_run(v, x, channels, g);
            let (v2, q) = crate::dsp::rack::bass_run(v1, y, channels, g);
            &&& crate::dsp::rack::bass_run(v, x + y, channels, g) == (v2, p + q)
            &&& p.len() == x.len()
            &&& q.len() == y.len()
        }),
{
    if channels > 0 {
        law_the_bass_boost_does_not_mind_cuts(v.0, v.1, x, y, channels, g);
    }
}

proof fn lemma_gain_cut(
    factor: u32,
    x: Seq<u32>,
    y: Seq<u32>,
    g: spec_fn(Calc, u32, u32) -> u32,
)
    ensures
        crate::dsp::rack::gain_run(factor, x + y, g) == crate::dsp::rack::gain_run(factor, x, g)
            + crate::dsp::rack::gain_run(factor, y, g),
        crate::dsp::rack::gain_run(factor, x, g).len() == x.len(),
        crate::dsp::rack::gain_run(factor, y, g).len() == y.len(),
{
    assert(crate::dsp::rack::gain_run(factor, x + y, g) =~= crate::dsp::rack::gain_run(
        factor,
        x,
        g,
    ) + crate::dsp::rack::gain_run(factor, y, g));
}

/// The effects and a block behind all of them, each effect with what it is and the block that the
/// one in front of it left.
spec fn in_turn(
    v: RackView,
    block: Seq<u32>,
    channels: int,
    t: spec_fn(Seq<u32>) -> Seq<(u32, u32)>,
    b: spec_fn(Seq<(u32, u32)>) -> Seq<u32>,
    g: spec_fn(Calc, u32, u32) -> u32,
) -> (RackView, Seq<u32>) {
    let (headphone, b1) = crate::dsp::rack::headphone_run(v.headphone, block, channels, g);
    let (eq, b2) = crate::dsp::rack::eq_run(v.eq, b1, channels, g);
    let (bass, b3) = crate::dsp::rack::bass_run(v.bass, b2, channels, g);
    let (spatializer, b4) = crate::dsp::rack::spatializer_run(v.spatializer, b3, channels, g);
    let (surround, b5) = crate::dsp::rack::surround_run(v.surround, b4, channels, g);
    let (room, b6) = crate::dsp::rack::room_run(v.room, b5, channels, g);
    let (convolver, b7) = crate::dsp::impulse::impulse_block(v.convolver, b6, channels, t, b, g);
    let (compander, meter, b8) = crate::dsp::rack::compander_run(v.compander, b7, channels, g);
    let b9 = crate::dsp::rack::gain_run(v.gain, b8, g);
    let (limiter, b10) = crate::dsp::limiter::limited(v.limiter, b9, channels, g);
    (
        RackView {
            power: v.power,
            headphone,
            eq,
            bass,
            spatializer,
            surround,
            room,
            convolver,
            compander,
            meter,
            gain: v.gain,
            limiter,
        },
        b10,
    )
}

proof fn lemma_in_turn(
    v: RackView,
    block: Seq<u32>,
    channels: int,
    t: spec_fn(Seq<u32>) -> Seq<(u32, u32)>,
    b: spec_fn(Seq<(u32, u32)>) -> Seq<u32>,
    g: spec_fn(Calc, u32, u32) -> u32,
)
    ensures
        crate::dsp::rack::rack_run(v, block, channels, t, b, g) == in_turn(
            v,
            block,
            channels,
            t,
            b,
            g,
        ),
{
    let (headphone, b1) = crate::dsp::rack::headphone_run(v.headphone, block, channels, g);
    let (eq, b2) = crate::dsp::rack::eq_run(v.eq, b1, channels, g);
    let (bass, b3) = crate::dsp::rack::bass_run(v.bass, b2, channels, g);
    let (spatializer, b4) = crate::dsp::rack::spatializer_run(v.spatializer, b3, channels, g);
    let (surround, b5) = crate::dsp::rack::surround_run(v.surround, b4, channels, g);
    let (room, b6) = crate::dsp::rack::room_run(v.room, b5, channels, g);
    let (convolver, b7) = crate::dsp::impulse::impulse_block(v.convolver, b6, channels, t, b, g);
    let (compander, meter, b8) = crate::dsp::rack::compander_run(v.compander, b7, channels, g);
    let b9 = crate::dsp::rack::gain_run(v.gain, b8, g);
    let v1 = RackView { headphone, ..v };
    let v2 = RackView { eq, ..v1 };
    let v3 = RackView { bass, ..v2 };
    let v4 = RackView { spatializer, ..v3 };
    let v5 = RackView { surround, ..v4 };
    let v6 = RackView { room, ..v5 };
    let v7 = RackView { convolver, ..v6 };
    let v8 = RackView { compander, meter, ..v7 };
    assert(crate::dsp::rack::stages_run(v, block, channels, 0, t, b, g) == (v, block));
    assert(crate::dsp::rack::stages_run(v, block, channels, 1, t, b, g) == (v1, b1));
    assert(crate::dsp::rack::stages_run(v, block, channels, 2, t, b, g) == (v2, b2));
    assert(crate::dsp::rack::stages_run(v, block, channels, 3, t, b, g) == (v3, b3));
    assert(crate::dsp::rack::stages_run(v, block, channels, 4, t, b, g) == (v4, b4));
    assert(crate::dsp::rack::stages_run(v, block, channels, 5, t, b, g) == (v5, b5));
    assert(crate::dsp::rack::stages_run(v, block, channels, 6, t, b, g) == (v6, b6));
    assert(crate::dsp::rack::stages_run(v, block, channels, 7, t, b, g) == (v7, b7));
    assert(crate::dsp::rack::stages_run(v, block, channels, 8, t, b, g) == (v8, b8));
    assert(crate::dsp::rack::stages_run(v, block, channels, 9, t, b, g) == (v8, b9));
}

/// How the audio is cut into blocks does not matter to the effects together: two blocks of whole
/// frames, one behind the other, come out as the block that they make together, and leave the
/// effects as it does. The meter alone shows the last block.
pub proof fn law_audio_may_be_cut_anywhere(
    v: RackView,
    x: Seq<u32>,
    y: Seq<u32>,
    channels: int,
    t: spec_fn(Seq<u32>) -> Seq<(u32, u32)>,
    b: spec_fn(Seq<(u32, u32)>) -> Seq<u32>,
    g: spec_fn(Calc, u32, u32) -> u32,
)
    requires
        whole_frames(x, y, channels),
        lines_answered(v.convolver),
        makes_windows(b),
    ensures
        ({
            let (v1, p) = crate::dsp::rack::rack_run(v, x, channels, t, b, g);
            let (v2, q) = crate::dsp::rack::rack_run(v1, y, channels, t, b, g);
            let (w, r) = crate::dsp::rack::rack_run(v, x + y, channels, t, b, g);
            &&& r == p + q
            &&& w == (RackView { meter: w.meter, ..v2 })
            &&& p.len() == x.len()
            &&& q.len() == y.len()
            &&& lines_answered(v1.convolver)
        }),
{
    let (v1, p) = crate::dsp::rack::rack_run(v, x, channels, t, b, g);
    lemma_in_turn(v, x, channels, t, b, g);
    lemma_in_turn(v1, y, channels, t, b, g);
    lemma_in_turn(v, x + y, channels, t, b, g);
    let x1 = crate::dsp::rack::headphone_run(v.headphone, x, channels, g).1;
    let y1 = crate::dsp::rack::headphone_run(v1.headphone, y, channels, g).1;
    lemma_headphone_cut(v.headphone, x, y, channels, g);
    let x2 = crate::dsp::rack::eq_run(v.eq, x1, channels, g).1;
    let y2 = crate::dsp::rack::eq_run(v1.eq, y1, channels, g).1;
    lemma_eq_cut(v.eq, x1, y1, channels, g);
    let x3 = crate::dsp::rack::bass_run(v.bass, x2, channels, g).1;
    let y3 = crate::dsp::rack::bass_run(v1.bass, y2, channels, g).1;
    lemma_bass_cut(v.bass, x2, y2, channels, g);
    let x4 = crate::dsp::rack::spatializer_run(v.spatializer, x3, channels, g).1;
    let y4 = crate::dsp::rack::spatializer_run(v1.spatializer, y3, channels, g).1;
    law_the_spatializer_does_not_mind_cuts(v.spatializer, x3, y3, channels, g);
    let x5 = crate::dsp::rack::surround_run(v.surround, x4, channels, g).1;
    let y5 = crate::dsp::rack::surround_run(v1.surround, y4, channels, g).1;
    law_the_ring_does_not_mind_cuts(v.surround, x4, y4, channels, g);
    let x6 = crate::dsp::rack::room_run(v.room, x5, channels, g).1;
    let y6 = crate::dsp::rack::room_run(v1.room, y5, channels, g).1;
    law_the_room_does_not_mind_cuts(v.room, x5, y5, channels, g);
    let x7 = crate::dsp::impulse::impulse_block(v.convolver, x6, channels, t, b, g).1;
    let y7 = crate::dsp::impulse::impulse_block(v1.convolver, y6, channels, t, b, g).1;
    law_the_convolver_does_not_mind_cuts(v.convolver, x6, y6, channels, t, b, g);
    let x8 = crate::dsp::rack::compander_run(v.compander, x7, channels, g).2;
    let y8 = crate::dsp::rack::compander_run(v1.compander, y7, channels, g).2;
    law_the_compander_does_not_mind_cuts(v.compander, x7, y7, channels, g);
    let x9 = crate::dsp::rack::gain_run(v.gain, x8, g);
    let y9 = crate::dsp::rack::gain_run(v1.gain, y8, g);
    lemma_gain_cut(v.gain, x8, y8, g);
    crate::dsp::limiter::law_blocks_may_be_cut_anywhere(v.limiter, x9, y9, channels, g);
}

/// The effects of a device are in such a state between any two blocks.
pub proof fn law_sound_effects_are_answered(rack: Rack)
    requires
        rack.wf(),
    ensures
        lines_answered(rack@.convolver),
{
    rack.convolver.lemma_answered();
}

} // verus!
