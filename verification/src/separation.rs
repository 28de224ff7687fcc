//! Separation of a track into its stems: every part runs through every model, and what the models
//! yield is put together.
//!
//! The models, the question whether to go on and the display of the progress are handed in.

use vstd::prelude::*;
use crate::dsp::arith::{apply, Calc};
use crate::overlap::{window_numbers, Overlap, OverlapView, LONGEST};
use crate::stems::{model_input, models, parts, planar, Part, StemError, StemModel, STEM_COUNT};

verus! {

/// The function that runs the models takes every part, and yields both channels of a stem.
pub open spec fn runnable<M: Fn(usize, &Vec<u32>) -> Result<Vec<u32>, StemError>>(
    run: M,
    segment: usize,
) -> bool {
    &&& forall|i: usize, x: &Vec<u32>|
        i < STEM_COUNT && x@.len() == 2 * segment ==> #[trigger] call_requires(run, (i, x))
    &&& forall|i: usize, x: &Vec<u32>, stem: Vec<u32>| #[trigger]
        call_ensures(run, (i, x), Ok::<_, StemError>(stem)) ==> stem@.len() == 2 * segment
}

/// What a model yields.
pub open spec fn stem_said(r: Result<Vec<u32>, StemError>) -> Result<Seq<u32>, StemError> {
    match r {
        Ok(stem) => Ok(stem@),
        Err(e) => Err(e),
    }
}

/// The function `run` always yields what `m` says of a model and a part.
pub open spec fn runs<M: Fn(usize, &Vec<u32>) -> Result<Vec<u32>, StemError>>(
    run: M,
    m: spec_fn(int, Seq<u32>) -> Result<Seq<u32>, StemError>,
) -> bool {
    forall|i: usize, x: &Vec<u32>, r: Result<Vec<u32>, StemError>| #[trigger]
        call_ensures(run, (i, x), r) ==> stem_said(r) == m(i as int, x@)
}

/// The parts of a track.
pub open spec fn are_parts(parts: Seq<Part>, frames: int, segment: int) -> bool {
    &&& forall|i: int|
        0 <= i < parts.len() ==> crate::stems::is_part(#[trigger] parts[i], i, frames, segment)
    &&& parts.len() * crate::stems::stride_of(segment) >= frames
}

/// What a model gets for a part: the left channel, then the right one, each filled up with silence.
pub open spec fn part_input(mix: Seq<u32>, part: Part, segment: int) -> Seq<u32> {
    Seq::new(
        (2 * segment) as nat,
        |i: int|
            {
                let k = if i < segment {
                    i
                } else {
                    i - segment
                };
                let side: int = if i < segment {
                    0
                } else {
                    1
                };
                if k < part.take {
                    mix[2 * (part.offset + k) + side]
                } else {
                    0
                }
            },
    )
}

/// A stem of a part added to the channels of its slot.
pub open spec fn with_stem(
    v: OverlapView,
    slot: int,
    part: Part,
    stem: Seq<u32>,
    window: Seq<u32>,
    g: spec_fn(Calc, u32, u32) -> u32,
) -> OverlapView {
    let n = window.len() as int;
    let left = crate::overlap::with_part(
        v.sums[2 * slot],
        part,
        stem.subrange(0, n),
        window,
        g,
    );
    let right = crate::overlap::with_part(
        v.sums[2 * slot + 1],
        part,
        stem.subrange(n, n + n),
        window,
        g,
    );
    OverlapView { sums: v.sums.update(2 * slot, left).update(2 * slot + 1, right), ..v }
}

/// The function `stop` always answers what `q` says of a part and a model.
pub open spec fn answers<C: Fn(usize, usize) -> bool>(
    stop: C,
    q: spec_fn(int, int) -> bool,
) -> bool {
    forall|k: usize, i: usize, b: bool| #[trigger]
        call_ensures(stop, (k, i), b) ==> b == q(k as int, i as int)
}

/// Nothing is given up.
pub open spec fn never() -> spec_fn(int, int) -> bool {
    |k: int, i: int| false
}

/// Before every model of the first `n` parts `stop` was asked, and said no.
pub open spec fn went_on<C: Fn(usize, usize) -> bool>(stop: C, n: int) -> bool {
    forall|k: usize, i: usize|
        k < n && i < STEM_COUNT ==> #[trigger] call_ensures(stop, (k, i), false)
}

/// Before some model of the first `n` parts `stop` was asked, and said yes.
pub open spec fn was_stopped<C: Fn(usize, usize) -> bool>(stop: C, n: int) -> bool {
    exists|k: usize, i: usize|
        k < n && i < STEM_COUNT && #[trigger] call_ensures(stop, (k, i), true)
}

/// The part with a number behind the first `n` models, or that it was given up before one of them,
/// or the failure of one.
pub open spec fn after_models(
    v: OverlapView,
    part: Part,
    number: int,
    input: Seq<u32>,
    n: nat,
    window: Seq<u32>,
    m: spec_fn(int, Seq<u32>) -> Result<Seq<u32>, StemError>,
    q: spec_fn(int, int) -> bool,
    g: spec_fn(Calc, u32, u32) -> u32,
) -> Result<OverlapView, StemError>
    decreases n,
{
    if n == 0 {
        Ok(v)
    } else {
        match after_models(v, part, number, input, (n - 1) as nat, window, m, q, g) {
            Err(e) => Err(e),
            Ok(u) => if q(number, n - 1) {
                Err(StemError::Aborted)
            } else {
                match m(n - 1, input) {
                    Err(e) => Err(e),
                    Ok(stem) => Ok(
                        with_stem(
                            u,
                            crate::stems::model_table()[n - 1].slot,
                            part,
                            stem,
                            window,
                            g,
                        ),
                    ),
                }
            },
        }
    }
}

/// The track behind its first `n` parts, or that it was given up, or the failure of a model.
pub open spec fn after_parts(
    mix: Seq<u32>,
    parts: Seq<Part>,
    n: nat,
    segment: int,
    m: spec_fn(int, Seq<u32>) -> Result<Seq<u32>, StemError>,
    q: spec_fn(int, int) -> bool,
    g: spec_fn(Calc, u32, u32) -> u32,
) -> Result<OverlapView, StemError>
    decreases n,
{
    let frames = mix.len() as int / 2;
    let window = crate::overlap::window_of(segment, g);
    if n == 0 {
        Ok(
            OverlapView {
                sums: Seq::new(8, |i: int| crate::overlap::silence(frames)),
                weights: crate::overlap::silence(frames),
            },
        )
    } else {
        let part = parts[n - 1];
        match after_parts(mix, parts, (n - 1) as nat, segment, m, q, g) {
            Err(e) => Err(e),
            Ok(u) => match after_models(
                u,
                part,
                n - 1,
                part_input(mix, part, segment),
                4,
                window,
                m,
                q,
                g,
            ) {
                Err(e) => Err(e),
                Ok(w) => Ok(
                    OverlapView {
                        weights: crate::overlap::with_weights(w.weights, part, window, g),
                        ..w
                    },
                ),
            },
        }
    }
}

/// The stems of a track in their slots, or that it was given up, or the failure of a model.
pub open spec fn separated(
    mix: Seq<u32>,
    parts: Seq<Part>,
    segment: int,
    m: spec_fn(int, Seq<u32>) -> Result<Seq<u32>, StemError>,
    q: spec_fn(int, int) -> bool,
    g: spec_fn(Calc, u32, u32) -> u32,
) -> Result<Seq<Seq<u32>>, StemError> {
    match after_parts(mix, parts, parts.len(), segment, m, q, g) {
        Err(e) => Err(e),
        Ok(v) => Ok(Seq::new(4, |slot: int| crate::overlap::finished(v, slot, g))),
    }
}

/// Stems as they are returned.
pub open spec fn stems_said(r: Result<Vec<Vec<u32>>, StemError>) -> Result<
    Seq<Seq<u32>>,
    StemError,
> {
    match r {
        Ok(set) => Ok(set@.map_values(|s: Vec<u32>| s@)),
        Err(e) => Err(e),
    }
}

/// The bits of 0.02 and 0.96: where the progress begins, and how far the parts take it.
pub const FIRST_PROGRESS: u32 = 0x3ca3_d70a;

pub const PARTS_PROGRESS: u32 = 0x3f75_c28f;

/// The progress behind some of the parts.
pub open spec fn progress_of(done: int, total: int, g: spec_fn(Calc, u32, u32) -> u32) -> u32 {
    let share = g(
        Calc::Div,
        g(Calc::Whole, done as u32, 0),
        g(Calc::Whole, total as u32, 0),
    );
    g(Calc::Add, FIRST_PROGRESS, g(Calc::Mul, share, PARTS_PROGRESS))
}

/// A count for the display; the largest stands for all that are larger.
pub open spec fn whole_of(n: int) -> int {
    if n <= u32::MAX {
        n
    } else {
        u32::MAX as int
    }
}

/// Behind each of the first `n` parts of so many `report` was told the progress.
pub open spec fn was_told<P: Fn(u32)>(
    report: P,
    n: int,
    total: int,
    g: spec_fn(Calc, u32, u32) -> u32,
) -> bool {
    forall|k: int|
        0 < k <= n ==> call_ensures(
            report,
            (#[trigger] progress_of(whole_of(k), whole_of(total), g),),
            (),
        )
}

fn whole(n: usize) -> (r: u32)
    ensures
        r == whole_of(n as int),
{
    if n as u64 <= u32::MAX as u64 {
        n as u32
    } else {
        u32::MAX
    }
}

/// The progress behind some of the parts.
pub fn progress<F: Fn(Calc, u32, u32) -> u32>(done: u32, total: u32, f: &F) -> (r: u32)
    requires
        crate::dsp::arith::callable(*f),
    ensures
        forall|g: spec_fn(Calc, u32, u32) -> u32| #[trigger]
            crate::dsp::arith::computes(*f, g) ==> r == progress_of(done as int, total as int, g),
{
    let have: u32 = apply(f, Calc::Whole, done, 0);
    let all: u32 = apply(f, Calc::Whole, total, 0);
    let share: u32 = apply(f, Calc::Div, have, all);
    let part: u32 = apply(f, Calc::Mul, share, PARTS_PROGRESS);
    apply(f, Calc::Add, FIRST_PROGRESS, part)
}

/// Runs a part through all models, unless it is told to stop.
fn add_models<
    M: Fn(usize, &Vec<u32>) -> Result<Vec<u32>, StemError>,
    C: Fn(usize, usize) -> bool,
    F: Fn(Calc, u32, u32) -> u32,
>(
    sums: &mut Overlap,
    part: Part,
    number: usize,
    input: &Vec<u32>,
    window: &Vec<u32>,
    table: &Vec<StemModel>,
    run: &M,
    stop: &C,
    f: &F,
) -> (r: Result<(), StemError>)
    requires
        old(sums).wf(),
        old(sums)@.sums.len() == 8,
        window@.len() <= LONGEST,
        input@.len() == 2 * window@.len(),
        part.take <= window@.len(),
        part.offset + part.take <= old(sums)@.weights.len(),
        table@.map_values(|m: StemModel| m@) == crate::stems::model_table(),
        runnable(*run, window@.len() as usize),
        forall|k: usize, i: usize| #[trigger] call_requires(*stop, (k, i)),
        crate::dsp::arith::callable(*f),
    ensures
        final(sums).wf(),
        final(sums)@.sums.len() == 8,
        final(sums)@.weights == old(sums)@.weights,
        r is Ok ==> forall|i: usize|
            i < STEM_COUNT ==> #[trigger] call_ensures(*stop, (number, i), false),
        (forall|i: usize, b: bool| #[trigger] call_ensures(*stop, (number, i), b) ==> b) ==> r
            == Err::<(), _>(StemError::Aborted),
        forall|
            m: spec_fn(int, Seq<u32>) -> Result<Seq<u32>, StemError>,
            g: spec_fn(Calc, u32, u32) -> u32,
        | #[trigger]
            runs(*run, m) && #[trigger] crate::dsp::arith::computes(*f, g) ==> {
                let want = after_models(
                    old(sums)@,
                    part,
                    number as int,
                    input@,
                    4,
                    window@,
                    m,
                    never(),
                    g,
                );
                match r {
                    Ok(()) => want == Ok::<_, StemError>(final(sums)@),
                    Err(e) => want == Err::<OverlapView, _>(e) || (e == StemError::Aborted
                        && exists|i: usize|
                        i < STEM_COUNT && #[trigger] call_ensures(*stop, (number, i), true)),
                }
            },
        forall|
            m: spec_fn(int, Seq<u32>) -> Result<Seq<u32>, StemError>,
            q: spec_fn(int, int) -> bool,
            g: spec_fn(Calc, u32, u32) -> u32,
        | #[trigger]
            runs(*run, m) && #[trigger] answers(*stop, q) && #[trigger]
            crate::dsp::arith::computes(*f, g) ==> after_models(
                old(sums)@,
                part,
                number as int,
                input@,
                4,
                window@,
                m,
                q,
                g,
            ) == (match r {
                Ok(()) => Ok::<OverlapView, StemError>(final(sums)@),
                Err(e) => Err(e),
            }),
{
    let ghost first = sums@;
    let ghost num = number as int;
    let mut i: usize = 0;
    while i < 4
        invariant
            i <= 4,
            num == number,
            sums.wf(),
            sums@.sums.len() == 8,
            sums@.weights == first.weights,
            first == old(sums)@,
            window@.len() <= LONGEST,
            input@.len() == 2 * window@.len(),
            part.take <= window@.len(),
            part.offset + part.take <= first.weights.len(),
            table@.map_values(|m: StemModel| m@) == crate::stems::model_table(),
            runnable(*run, window@.len() as usize),
            forall|k: usize, i: usize| #[trigger] call_requires(*stop, (k, i)),
            crate::dsp::arith::callable(*f),
            forall|k: usize| k < i ==> #[trigger] call_ensures(*stop, (number, k), false),
            (forall|k: usize, b: bool| #[trigger] call_ensures(*stop, (number, k), b) ==> b) ==> i
                == 0,
            forall|
                m: spec_fn(int, Seq<u32>) -> Result<Seq<u32>, StemError>,
                g: spec_fn(Calc, u32, u32) -> u32,
            | #[trigger]
                runs(*run, m) && #[trigger] crate::dsp::arith::computes(*f, g) ==> after_models(
                    first,
                    part,
                    num,
                    input@,
                    i as nat,
                    window@,
                    m,
                    never(),
                    g,
                ) == Ok::<_, StemError>(sums@),
            forall|
                m: spec_fn(int, Seq<u32>) -> Result<Seq<u32>, StemError>,
                q: spec_fn(int, int) -> bool,
                g: spec_fn(Calc, u32, u32) -> u32,
            | #[trigger]
                runs(*run, m) && #[trigger] answers(*stop, q) && #[trigger]
                crate::dsp::arith::computes(*f, g) ==> after_models(
                    first,
                    part,
                    num,
                    input@,
                    i as nat,
                    window@,
                    m,
                    q,
                    g,
                ) == Ok::<_, StemError>(sums@),
        decreases 4 - i,
    {
        let given_up: bool = stop(number, i);
        if given_up {
            proof {
                assert forall|
                    m: spec_fn(int, Seq<u32>) -> Result<Seq<u32>, StemError>,
                    q: spec_fn(int, int) -> bool,
                    g: spec_fn(Calc, u32, u32) -> u32,
                | #[trigger]
                    runs(*run, m) && #[trigger] answers(*stop, q) && #[trigger]
                    crate::dsp::arith::computes(*f, g) implies after_models(
                    first,
                    part,
                    num,
                    input@,
                    4,
                    window@,
                    m,
                    q,
                    g,
                ) == Err::<OverlapView, _>(StemError::Aborted) by {
                    assert(q(num, i as int));
                    let n = (i + 1) as nat;
                    assert(after_models(first, part, num, input@, n, window@, m, q, g) == Err::<
                        OverlapView,
                        _,
                    >(StemError::Aborted));
                    lemma_failures_stay(first, part, num, input@, n, window@, m, q, g);
                }
            }
            return Err(StemError::Aborted);
        }
        proof {
            crate::stems::law_models_fill_all_slots(i as int);
            assert(table@.map_values(|m: StemModel| m@)[i as int] == table@[i as int]@);
        }
        let slot: usize = table[i].slot;
        let yielded: Result<Vec<u32>, StemError> = run(i, input);
        match yielded {
            Err(e) => {
                proof {
                    let n = (i + 1) as nat;
                    assert forall|
                        m: spec_fn(int, Seq<u32>) -> Result<Seq<u32>, StemError>,
                        g: spec_fn(Calc, u32, u32) -> u32,
                    | #[trigger]
                        runs(*run, m) && #[trigger] crate::dsp::arith::computes(
                            *f,
                            g,
                        ) implies after_models(
                        first,
                        part,
                        num,
                        input@,
                        4,
                        window@,
                        m,
                        never(),
                        g,
                    ) == Err::<OverlapView, _>(e) by {
                        let q = never();
                        assert(m(i as int, input@) == Err::<Seq<u32>, _>(e));
                        assert(after_models(first, part, num, input@, n, window@, m, q, g) == Err::<
                            OverlapView,
                            _,
                        >(e));
                        lemma_failures_stay(first, part, num, input@, n, window@, m, q, g);
                    }
                    assert forall|
                        m: spec_fn(int, Seq<u32>) -> Result<Seq<u32>, StemError>,
                        q: spec_fn(int, int) -> bool,
                        g: spec_fn(Calc, u32, u32) -> u32,
                    | #[trigger]
                        runs(*run, m) && #[trigger] answers(*stop, q) && #[trigger]
                        crate::dsp::arith::computes(*f, g) implies after_models(
                        first,
                        part,
                        num,
                        input@,
                        4,
                        window@,
                        m,
                        q,
                        g,
                    ) == Err::<OverlapView, _>(e) by {
                        assert(!q(num, i as int));
                        assert(m(i as int, input@) == Err::<Seq<u32>, _>(e));
                        assert(after_models(first, part, num, input@, n, window@, m, q, g) == Err::<
                            OverlapView,
                            _,
                        >(e));
                        lemma_failures_stay(first, part, num, input@, n, window@, m, q, g);
                    }
                }
                return Err(e);
            },
            Ok(stem) => {
                let ghost before = sums@;
                sums.add_part(slot, part, &stem, window, f);
                proof {
                    assert forall|
                        m: spec_fn(int, Seq<u32>) -> Result<Seq<u32>, StemError>,
                        g: spec_fn(Calc, u32, u32) -> u32,
                    | #[trigger]
                        runs(*run, m) && #[trigger] crate::dsp::arith::computes(
                            *f,
                            g,
                        ) implies m(i as int, input@) == Ok::<_, StemError>(stem@) && sums@
                        == with_stem(before, slot as int, part, stem@, window@, g) by {
                        assert(m(i as int, input@) == Ok::<_, StemError>(stem@));
                        let want = with_stem(before, slot as int, part, stem@, window@, g);
                        assert forall|k: int| 0 <= k < 8 implies #[trigger] sums@.sums[k]
                            == want.sums[k] by {}
                        assert(sums@.sums =~= want.sums);
                    }
                    assert forall|
                        m: spec_fn(int, Seq<u32>) -> Result<Seq<u32>, StemError>,
                        q: spec_fn(int, int) -> bool,
                        g: spec_fn(Calc, u32, u32) -> u32,
                    | #[trigger]
                        runs(*run, m) && #[trigger] answers(*stop, q) && #[trigger]
                        crate::dsp::arith::computes(*f, g) implies after_models(
                        first,
                        part,
                        num,
                        input@,
                        (i + 1) as nat,
                        window@,
                        m,
                        q,
                        g,
                    ) == Ok::<_, StemError>(sums@) by {
                        assert(!q(num, i as int));
                    }
                }
            },
        }
        i += 1;
    }
    Ok(())
}

proof fn lemma_failures_stay(
    v: OverlapView,
    part: Part,
    number: int,
    input: Seq<u32>,
    n: nat,
    window: Seq<u32>,
    m: spec_fn(int, Seq<u32>) -> Result<Seq<u32>, StemError>,
    q: spec_fn(int, int) -> bool,
    g: spec_fn(Calc, u32, u32) -> u32,
)
    requires
        n <= 4,
        after_models(v, part, number, input, n, window, m, q, g) is Err,
    ensures
        after_models(v, part, number, input, 4, window, m, q, g) == after_models(
            v,
            part,
            number,
            input,
            n,
            window,
            m,
            q,
            g,
        ),
    decreases 4 - n,
{
    if n < 4 {
        lemma_failures_stay(v, part, number, input, n + 1, window, m, q, g);
    }
}

proof fn lemma_track_fails(
    mix: Seq<u32>,
    parts: Seq<Part>,
    n: nat,
    segment: int,
    m: spec_fn(int, Seq<u32>) -> Result<Seq<u32>, StemError>,
    q: spec_fn(int, int) -> bool,
    g: spec_fn(Calc, u32, u32) -> u32,
)
    requires
        n <= parts.len(),
        after_parts(mix, parts, n, segment, m, q, g) is Err,
    ensures
        after_parts(mix, parts, parts.len(), segment, m, q, g) == after_parts(
            mix,
            parts,
            n,
            segment,
            m,
            q,
            g,
        ),
    decreases parts.len() - n,
{
    if n < parts.len() {
        lemma_track_fails(mix, parts, n + 1, segment, m, q, g);
    }
}

/// Separates an interleaved track of two channels. Before every run of a model `stop` is asked, with
/// the numbers of the part and of the model, whether to give up; behind every part `report` is told
/// the progress.
pub fn separate<
    M: Fn(usize, &Vec<u32>) -> Result<Vec<u32>, StemError>,
    C: Fn(usize, usize) -> bool,
    P: Fn(u32),
    F: Fn(Calc, u32, u32) -> u32,
>(mix: &Vec<u32>, segment: usize, run: &M, stop: &C, report: &P, f: &F) -> (r: Result<
    Vec<Vec<u32>>,
    StemError,
>)
    requires
        segment <= LONGEST,
        runnable(*run, segment),
        forall|k: usize, i: usize| #[trigger] call_requires(*stop, (k, i)),
        forall|v: u32| #[trigger] call_requires(*report, (v,)),
        crate::dsp::arith::callable(*f),
    ensures
        mix@.len() >= 2 && (forall|k: usize, i: usize, b: bool| #[trigger]
            call_ensures(*stop, (k, i), b) ==> b) ==> r == Err::<Vec<Vec<u32>>, _>(
            StemError::Aborted,
        ),
        exists|parts: Seq<Part>| #[trigger]
            are_parts(parts, mix@.len() as int / 2, segment as int) && {
                &&& r is Ok ==> went_on(*stop, parts.len() as int)
                &&& r is Ok ==> forall|g: spec_fn(Calc, u32, u32) -> u32| #[trigger]
                    crate::dsp::arith::computes(*f, g) ==> was_told(
                        *report,
                        parts.len() as int,
                        parts.len() as int,
                        g,
                    )
                &&& forall|
                    m: spec_fn(int, Seq<u32>) -> Result<Seq<u32>, StemError>,
                    g: spec_fn(Calc, u32, u32) -> u32,
                | #[trigger]
                    runs(*run, m) && #[trigger] crate::dsp::arith::computes(*f, g)
                        ==> stems_said(r) == separated(
                        mix@,
                        parts,
                        segment as int,
                        m,
                        never(),
                        g,
                    ) || (r == Err::<Vec<Vec<u32>>, _>(StemError::Aborted) && was_stopped(
                        *stop,
                        parts.len() as int,
                    ))
                &&& forall|
                    m: spec_fn(int, Seq<u32>) -> Result<Seq<u32>, StemError>,
                    q: spec_fn(int, int) -> bool,
                    g: spec_fn(Calc, u32, u32) -> u32,
                | #[trigger]
                    runs(*run, m) && #[trigger] answers(*stop, q) && #[trigger]
                    crate::dsp::arith::computes(*f, g) ==> stems_said(r) == separated(
                        mix@,
                        parts,
                        segment as int,
                        m,
                        q,
                        g,
                    )
            },
{
    let samples: usize = mix.len();
    let (left, right) = planar(mix);
    let frames: usize = left.len();
    assert(frames == samples / 2);
    let window: Vec<u32> = window_numbers(segment, f);
    let all: Vec<Part> = parts(frames, segment);
    let table: Vec<StemModel> = models();
    let total: usize = all.len();
    let mut sums = Overlap::new(frames);
    let mut k: usize = 0;
    while k < total
        invariant
            k <= total == all@.len(),
            segment <= LONGEST,
            left@.len() == frames,
            right@.len() == frames,
            frames == mix@.len() / 2,
            forall|i: int| 0 <= i < frames ==> #[trigger] left@[i] == mix@[2 * i],
            forall|i: int| 0 <= i < frames ==> #[trigger] right@[i] == mix@[2 * i + 1],
            are_parts(all@, frames as int, segment as int),
            table@.map_values(|m: StemModel| m@) == crate::stems::model_table(),
            window@.len() == segment,
            sums.wf(),
            sums@.sums.len() == 8,
            sums@.weights.len() == frames,
            runnable(*run, segment),
            forall|k: usize, i: usize| #[trigger] call_requires(*stop, (k, i)),
            forall|v: u32| #[trigger] call_requires(*report, (v,)),
            crate::dsp::arith::callable(*f),
            went_on(*stop, k as int),
            (forall|k: usize, i: usize, b: bool| #[trigger] call_ensures(*stop, (k, i), b) ==> b)
                ==> k == 0,
            forall|g: spec_fn(Calc, u32, u32) -> u32| #[trigger]
                crate::dsp::arith::computes(*f, g) ==> was_told(*report, k as int, total as int, g),
            forall|g: spec_fn(Calc, u32, u32) -> u32| #[trigger]
                crate::dsp::arith::computes(*f, g) ==> window@ == crate::overlap::window_of(
                    segment as int,
                    g,
                ),
            forall|
                m: spec_fn(int, Seq<u32>) -> Result<Seq<u32>, StemError>,
                g: spec_fn(Calc, u32, u32) -> u32,
            | #[trigger]
                runs(*run, m) && #[trigger] crate::dsp::arith::computes(*f, g) ==> after_parts(
                    mix@,
                    all@,
                    k as nat,
                    segment as int,
                    m,
                    never(),
                    g,
                ) == Ok::<_, StemError>(sums@),
            forall|
                m: spec_fn(int, Seq<u32>) -> Result<Seq<u32>, StemError>,
                q: spec_fn(int, int) -> bool,
                g: spec_fn(Calc, u32, u32) -> u32,
            | #[trigger]
                runs(*run, m) && #[trigger] answers(*stop, q) && #[trigger]
                crate::dsp::arith::computes(*f, g) ==> after_parts(
                    mix@,
                    all@,
                    k as nat,
                    segment as int,
                    m,
                    q,
                    g,
                ) == Ok::<_, StemError>(sums@),
        decreases total - k,
    {
        let part: Part = all[k];
        let input: Vec<u32> = model_input(&left, &right, part, segment);
        proof {
            let want = part_input(mix@, part, segment as int);
            assert forall|i: int| 0 <= i < 2 * segment implies #[trigger] input@[i]
                == want[i] by {
                if i >= segment {
                    assert(input@[segment + (i - segment)] == input@[i]);
                }
            }
            assert(input@ =~= want);
        }
        let ghost before = sums@;
        let done: Result<(), StemError> = add_models(
            &mut sums,
            part,
            k,
            &input,
            &window,
            &table,
            run,
            stop,
            f,
        );
        if let Err(e) = done {
            proof {
                let n = (k + 1) as nat;
                let s = segment as int;
                assert forall|
                    m: spec_fn(int, Seq<u32>) -> Result<Seq<u32>, StemError>,
                    g: spec_fn(Calc, u32, u32) -> u32,
                | #[trigger]
                    runs(*run, m) && #[trigger] crate::dsp::arith::computes(*f, g) implies separated(
                    mix@,
                    all@,
                    s,
                    m,
                    never(),
                    g,
                ) == Err::<Seq<Seq<u32>>, _>(e) || (e == StemError::Aborted && was_stopped(
                    *stop,
                    total as int,
                )) by {
                    let q = never();
                    if after_models(before, part, k as int, input@, 4, window@, m, q, g) == Err::<
                        OverlapView,
                        _,
                    >(e) {
                        assert(after_parts(mix@, all@, n, s, m, q, g) == Err::<OverlapView, _>(e));
                        lemma_track_fails(mix@, all@, n, s, m, q, g);
                    }
                }
                assert forall|
                    m: spec_fn(int, Seq<u32>) -> Result<Seq<u32>, StemError>,
                    q: spec_fn(int, int) -> bool,
                    g: spec_fn(Calc, u32, u32) -> u32,
                | #[trigger]
                    runs(*run, m) && #[trigger] answers(*stop, q) && #[trigger]
                    crate::dsp::arith::computes(*f, g) implies separated(mix@, all@, s, m, q, g)
                    == Err::<Seq<Seq<u32>>, _>(e) by {
                    assert(after_parts(mix@, all@, n, s, m, q, g) == Err::<OverlapView, _>(e));
                    lemma_track_fails(mix@, all@, n, s, m, q, g);
                }
            }
            return Err(e);
        }
        sums.add_weights(part, &window, f);
        k += 1;
        let shown: u32 = progress(whole(k), whole(total), f);
        report(shown);
        proof {
            assert forall|g: spec_fn(Calc, u32, u32) -> u32| #[trigger]
                crate::dsp::arith::computes(*f, g) implies was_told(
                *report,
                k as int,
                total as int,
                g,
            ) by {
                assert(was_told(*report, k - 1, total as int, g));
                assert forall|j: int| 0 < j <= k implies call_ensures(
                    *report,
                    (#[trigger] progress_of(whole_of(j), whole_of(total as int), g),),
                    (),
                ) by {}
            }
        }
    }
    assert(0 * crate::stems::stride_of(segment as int) == 0) by (nonlinear_arith);
    let mut set: Vec<Vec<u32>> = Vec::new();
    while set.len() < 4
        invariant
            set@.len() <= 4,
            sums.wf(),
            crate::dsp::arith::callable(*f),
            forall|g: spec_fn(Calc, u32, u32) -> u32, i: int|
                0 <= i < set@.len() && #[trigger] crate::dsp::arith::computes(*f, g)
                    ==> #[trigger] set@[i]@ == crate::overlap::finished(sums@, i, g),
        decreases 4 - set@.len(),
    {
        set.push(sums.finish(set.len(), f));
    }
    proof {
        let got = set@.map_values(|s: Vec<u32>| s@);
        assert forall|g: spec_fn(Calc, u32, u32) -> u32| #[trigger]
            crate::dsp::arith::computes(*f, g) implies got == Seq::new(
            4,
            |slot: int| crate::overlap::finished(sums@, slot, g),
        ) by {
            let want = Seq::new(4, |slot: int| crate::overlap::finished(sums@, slot, g));
            assert forall|i: int| 0 <= i < 4 implies #[trigger] got[i] == want[i] by {
                assert(set@[i]@ == crate::overlap::finished(sums@, i, g));
            }
            assert(got =~= want);
        }
    }
    Ok(set)
}

/// A model fills its own slot: the channels of the other stems stay as they are.
pub proof fn law_models_keep_to_their_slots(
    v: OverlapView,
    slot: int,
    part: Part,
    stem: Seq<u32>,
    window: Seq<u32>,
    g: spec_fn(Calc, u32, u32) -> u32,
    other: int,
)
    requires
        v.sums.len() == 8,
        0 <= slot < STEM_COUNT,
        0 <= other < STEM_COUNT,
        other != slot,
    ensures
        with_stem(v, slot, part, stem, window, g).sums[2 * other] == v.sums[2 * other],
        with_stem(v, slot, part, stem, window, g).sums[2 * other + 1] == v.sums[2 * other + 1],
        with_stem(v, slot, part, stem, window, g).weights == v.weights,
{
}

/// Nothing stands on a side of some stems.
pub open spec fn side_silent(v: OverlapView, side: int) -> bool {
    forall|slot: int, i: int|
        0 <= slot < 4 && 0 <= i < v.sums[2 * slot + side].len() ==> crate::dsp::numbers::zero(
            #[trigger] v.sums[2 * slot + side][i],
        )
}

/// Nothing stands in the half of a part that belongs to a side.
pub open spec fn half_silent(x: Seq<u32>, segment: int, side: int) -> bool {
    forall|i: int|
        side * segment <= i < side * segment + segment ==> crate::dsp::numbers::zero(#[trigger] x[i])
}

/// A model that hears nothing on a side gives nothing on it.
pub open spec fn keeps_side(
    m: spec_fn(int, Seq<u32>) -> Result<Seq<u32>, StemError>,
    segment: int,
    side: int,
) -> bool {
    forall|k: int, x: Seq<u32>|
        half_silent(x, segment, side) && (#[trigger] m(k, x)) is Ok ==> m(k, x)->Ok_0.len() == 2
            * segment && half_silent(m(k, x)->Ok_0, segment, side)
}

proof fn lemma_stem_side(
    v: OverlapView,
    slot: int,
    part: Part,
    stem: Seq<u32>,
    window: Seq<u32>,
    side: int,
    g: spec_fn(Calc, u32, u32) -> u32,
)
    requires
        crate::dsp::numbers::ordinary(g),
        v.sums.len() == 8,
        0 <= slot < 4,
        side == 0 || side == 1,
        side_silent(v, side),
        part.take <= window.len(),
        stem.len() == 2 * window.len(),
        half_silent(stem, window.len() as int, side),
        forall|i: int| 0 <= i < window.len() ==> crate::float_bits::finite(#[trigger] window[i]),
    ensures
        side_silent(with_stem(v, slot, part, stem, window, g), side),
        with_stem(v, slot, part, stem, window, g).sums.len() == 8,
{
    reveal(crate::dsp::numbers::ordinary);
    let n = window.len() as int;
    let u = with_stem(v, slot, part, stem, window, g);
    assert forall|k: int, i: int|
        0 <= k < 4 && 0 <= i < u.sums[2 * k + side].len() implies crate::dsp::numbers::zero(
        #[trigger] u.sums[2 * k + side][i],
    ) by {
        if k == slot {
            assert(crate::dsp::numbers::zero(v.sums[2 * k + side][i]));
            if part.offset <= i < part.offset + part.take {
                let at = i - part.offset;
                let plane = stem.subrange(side * n, side * n + n);
                assert(plane[at] == stem[side * n + at]);
                assert(crate::dsp::numbers::zero(stem[side * n + at]));
                assert(crate::float_bits::finite(window[at]));
                let m = g(Calc::Mul, plane[at], window[at]);
                assert(crate::dsp::numbers::zero(m));
                assert(crate::float_bits::same(g(Calc::Add, v.sums[2 * k + side][i], m), m));
            }
        } else {
            assert(u.sums[2 * k + side] == v.sums[2 * k + side]);
            assert(crate::dsp::numbers::zero(v.sums[2 * k + side][i]));
        }
    }
}

proof fn lemma_models_side(
    v: OverlapView,
    part: Part,
    number: int,
    input: Seq<u32>,
    n: nat,
    window: Seq<u32>,
    m: spec_fn(int, Seq<u32>) -> Result<Seq<u32>, StemError>,
    q: spec_fn(int, int) -> bool,
    side: int,
    g: spec_fn(Calc, u32, u32) -> u32,
)
    requires
        crate::dsp::numbers::ordinary(g),
        n <= 4,
        v.sums.len() == 8,
        side == 0 || side == 1,
        side_silent(v, side),
        part.take <= window.len(),
        half_silent(input, window.len() as int, side),
        keeps_side(m, window.len() as int, side),
        forall|i: int| 0 <= i < window.len() ==> crate::float_bits::finite(#[trigger] window[i]),
    ensures
        after_models(v, part, number, input, n, window, m, q, g) matches Ok(u) ==> side_silent(
            u,
            side,
        ) && u.sums.len() == 8,
    decreases n,
{
    if n > 0 {
        let less = (n - 1) as nat;
        lemma_models_side(v, part, number, input, less, window, m, q, side, g);
        if let Ok(u) = after_models(v, part, number, input, less, window, m, q, g) {
            if let Ok(stem) = m(n - 1, input) {
                let slot = crate::stems::model_table()[n - 1].slot;
                lemma_stem_side(u, slot, part, stem, window, side, g);
            }
        }
    }
}

proof fn lemma_parts_side(
    mix: Seq<u32>,
    parts: Seq<Part>,
    n: nat,
    segment: int,
    m: spec_fn(int, Seq<u32>) -> Result<Seq<u32>, StemError>,
    q: spec_fn(int, int) -> bool,
    side: int,
    g: spec_fn(Calc, u32, u32) -> u32,
)
    requires
        crate::dsp::numbers::ordinary(g),
        n <= parts.len(),
        segment > 0,
        side == 0 || side == 1,
        forall|k: int| 0 <= k < mix.len() && k % 2 == side ==> crate::dsp::numbers::zero(
            #[trigger] mix[k],
        ),
        forall|i: int|
            0 <= i < parts.len() ==> crate::stems::is_part(
                #[trigger] parts[i],
                i,
                mix.len() as int / 2,
                segment,
            ),
        keeps_side(m, segment, side),
        forall|i: int|
            0 <= i < segment ==> crate::float_bits::finite(
                #[trigger] crate::overlap::window_of(segment, g)[i],
            ),
    ensures
        after_parts(mix, parts, n, segment, m, q, g) matches Ok(v) ==> side_silent(v, side)
            && v.sums.len() == 8,
    decreases n,
{
    if n > 0 {
        let less = (n - 1) as nat;
        lemma_parts_side(mix, parts, less, segment, m, q, side, g);
        let part = parts[n - 1];
        let window = crate::overlap::window_of(segment, g);
        let input = part_input(mix, part, segment);
        assert(half_silent(input, segment, side)) by {
            assert forall|i: int|
                side * segment <= i < side * segment + segment implies crate::dsp::numbers::zero(
                #[trigger] input[i],
            ) by {
                let k = i - side * segment;
                if k < part.take {
                    let at = 2 * (part.offset + k) + side;
                    assert(part.offset + k < mix.len() as int / 2);
                    assert(at % 2 == side);
                    assert(crate::dsp::numbers::zero(mix[at]));
                }
            }
        }
        if let Ok(u) = after_parts(mix, parts, less, segment, m, q, g) {
            lemma_models_side(u, part, n - 1, input, 4, window, m, q, side, g);
        }
    }
}

/// Stems keep the sides of a track: where a side of it is silent, and no model makes something of
/// silence, that side of every stem is silent.
pub proof fn law_stems_keep_sides(
    mix: Seq<u32>,
    parts: Seq<Part>,
    segment: int,
    m: spec_fn(int, Seq<u32>) -> Result<Seq<u32>, StemError>,
    q: spec_fn(int, int) -> bool,
    side: int,
    slot: int,
    i: int,
    g: spec_fn(Calc, u32, u32) -> u32,
)
    requires
        crate::dsp::numbers::ordinary(g),
        segment > 0,
        side == 0 || side == 1,
        0 <= slot < 4,
        0 <= i < mix.len() as int / 2,
        forall|k: int| 0 <= k < mix.len() && k % 2 == side ==> crate::dsp::numbers::zero(
            #[trigger] mix[k],
        ),
        are_parts(parts, mix.len() as int / 2, segment),
        keeps_side(m, segment, side),
        forall|k: int|
            0 <= k < segment ==> crate::float_bits::finite(
                #[trigger] crate::overlap::window_of(segment, g)[k],
            ),
        forall|w: u32| crate::float_bits::finite(#[trigger] crate::overlap::share_of_weight(w, g)),
        separated(mix, parts, segment, m, q, g) is Ok,
    ensures
        separated(mix, parts, segment, m, q, g)->Ok_0[slot].len() == mix.len() as int / 2 * 2,
        crate::dsp::numbers::zero(
            separated(mix, parts, segment, m, q, g)->Ok_0[slot][2 * i + side],
        ),
{
    lemma_parts_side(mix, parts, parts.len(), segment, m, q, side, g);
    reveal(crate::dsp::numbers::ordinary);
    let v = after_parts(mix, parts, parts.len(), segment, m, q, g)->Ok_0;
    let at = 2 * i + side;
    assert(at % 2 == side && at / 2 == i);
    lemma_lengths(mix, parts, parts.len(), segment, m, q, g);
    assert(crate::dsp::numbers::zero(v.sums[2 * slot + side][i]));
    assert(crate::float_bits::finite(crate::overlap::share_of_weight(v.weights[i], g)));
}

proof fn lemma_lengths(
    mix: Seq<u32>,
    parts: Seq<Part>,
    n: nat,
    segment: int,
    m: spec_fn(int, Seq<u32>) -> Result<Seq<u32>, StemError>,
    q: spec_fn(int, int) -> bool,
    g: spec_fn(Calc, u32, u32) -> u32,
)
    requires
        n <= parts.len(),
    ensures
        after_parts(mix, parts, n, segment, m, q, g) matches Ok(v) ==> v.sums.len() == 8
            && v.weights.len() == mix.len() as int / 2 && (forall|k: int|
            0 <= k < 8 ==> (#[trigger] v.sums[k]).len() == mix.len() as int / 2),
    decreases n,
{
    if n > 0 {
        let less = (n - 1) as nat;
        lemma_lengths(mix, parts, less, segment, m, q, g);
        if let Ok(u) = after_parts(mix, parts, less, segment, m, q, g) {
            let part = parts[n - 1];
            lemma_model_lengths(
                u,
                part,
                n - 1,
                part_input(mix, part, segment),
                4,
                crate::overlap::window_of(segment, g),
                m,
                q,
                g,
            );
        }
    }
}

proof fn lemma_model_lengths(
    v: OverlapView,
    part: Part,
    number: int,
    input: Seq<u32>,
    n: nat,
    window: Seq<u32>,
    m: spec_fn(int, Seq<u32>) -> Result<Seq<u32>, StemError>,
    q: spec_fn(int, int) -> bool,
    g: spec_fn(Calc, u32, u32) -> u32,
)
    requires
        n <= 4,
        v.sums.len() == 8,
        forall|k: int| 0 <= k < 8 ==> (#[trigger] v.sums[k]).len() == v.weights.len(),
    ensures
        after_models(v, part, number, input, n, window, m, q, g) matches Ok(u) ==> u.sums.len() == 8
            && u.weights == v.weights && (forall|k: int|
            0 <= k < 8 ==> (#[trigger] u.sums[k]).len() == v.weights.len()),
    decreases n,
{
    if n > 0 {
        lemma_model_lengths(v, part, number, input, (n - 1) as nat, window, m, q, g);
    }
}

/// The progress rises with the parts that are done, from the first that is shown on.
pub proof fn law_progress_rises(
    done: int,
    more: int,
    total: int,
    g: spec_fn(Calc, u32, u32) -> u32,
)
    requires
        crate::dsp::numbers::ordinary(g),
        0 <= done <= more <= total <= u32::MAX,
        total > 0,
    ensures
        crate::float_bits::at_most(progress_of(done, total, g), progress_of(more, total, g)),
        crate::float_bits::same(progress_of(0, total, g), FIRST_PROGRESS),
{
    reveal(crate::dsp::numbers::ordinary);
    let (a, b, t) = (
        g(Calc::Whole, done as u32, 0),
        g(Calc::Whole, more as u32, 0),
        g(Calc::Whole, total as u32, 0),
    );
    assert(crate::float_bits::at_most(a, b));
    assert(crate::float_bits::at_most(g(Calc::Whole, 1, 0), t));
    assert(crate::dsp::numbers::within(t, 32) && crate::dsp::numbers::positive(t));
    let (x, y) = (g(Calc::Div, a, t), g(Calc::Div, b, t));
    assert(crate::float_bits::at_most(x, y));
    assert(crate::dsp::numbers::positive(PARTS_PROGRESS));
    let (p, r) = (g(Calc::Mul, x, PARTS_PROGRESS), g(Calc::Mul, y, PARTS_PROGRESS));
    assert(crate::float_bits::at_most(p, r));
    let none = g(Calc::Div, g(Calc::Whole, 0, 0), t);
    assert(crate::dsp::numbers::zero(none));
    assert(crate::dsp::numbers::zero(g(Calc::Mul, none, PARTS_PROGRESS)));
}

} // verus!
