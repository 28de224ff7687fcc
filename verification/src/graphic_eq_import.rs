//! Import of `GraphicEQ` curves: the text is taken apart here, and the points it names are put in
//! order and interpolated onto the bands of the equalizer. The function that reads numbers is handed
//! in, and so is the arithmetic on them.

use vstd::prelude::*;
use crate::dsp::arith::{apply, larger_of, Calc};
use crate::float_bits::{
    bits_magnitude, is_undefined, less_than, negate, not_above, ONE_BITS, SIGN_BIT,
};
use crate::presets::iso_bits;
use crate::text::{chars_of, find_char, join3, split_words, starts_with, string_of, trim};

verus! {

/// A `frequency gain` pair as it is written.
#[derive(Debug, PartialEq, Eq)]
pub struct EqPair {
    /// The whole pair, without white space around it.
    pub text: String,
    pub freq: String,
    pub gain: Option<String>,
}

/// The content of an [`EqPair`].
pub struct EqPairView {
    pub text: Seq<char>,
    pub freq: Seq<char>,
    pub gain: Option<Seq<char>>,
}

impl View for EqPair {
    type V = EqPairView;

    open spec fn view(&self) -> EqPairView {
        EqPairView {
            text: self.text@,
            freq: self.freq@,
            gain: crate::types::text_of(self.gain),
        }
    }
}

/// A text without the colons and blanks at its start.
pub open spec fn unlabelled(s: Seq<char>) -> Seq<char>
    decreases s.len(),
{
    if s.len() > 0 && (s[0] == ':' || s[0] == ' ') {
        unlabelled(s.subrange(1, s.len() as int))
    } else {
        s
    }
}

/// The part of a curve behind its label, if it has one.
pub open spec fn body_of(input: Seq<char>) -> Seq<char> {
    let t = crate::text::trimmed(input);
    let label = "GraphicEQ"@;
    unlabelled(
        if crate::text::starts(t, label) {
            t.subrange(label.len() as int, t.len() as int)
        } else {
            input
        },
    )
}

/// The pair that a piece of a curve holds; a blank one holds none.
pub open spec fn pair_in(piece: Seq<char>) -> Seq<EqPairView> {
    let text = crate::text::trimmed(piece);
    let w = crate::text::words(text);
    if w.len() == 0 {
        Seq::empty()
    } else {
        seq![
            EqPairView {
                text,
                freq: w[0],
                gain: if w.len() > 1 {
                    Some(w[1])
                } else {
                    None
                },
            },
        ]
    }
}

/// The pairs of a curve from `pos` on, which `;` separates.
pub open spec fn pairs_from(s: Seq<char>, pos: int) -> Seq<EqPairView>
    decreases s.len() + 1 - pos,
{
    if !(0 <= pos <= s.len()) {
        Seq::empty()
    } else {
        let end = crate::text::char_from(s, ';', pos);
        proof {
            crate::text::lemma_char_from(s, ';', pos);
        }
        pair_in(s.subrange(pos, end)) + pairs_from(s, end + 1)
    }
}

/// The contents of pairs.
pub open spec fn pair_views(s: Seq<EqPair>) -> Seq<EqPairView> {
    s.map_values(|p: EqPair| p@)
}

fn unlabel(s: &str) -> (r: String)
    ensures
        r@ == unlabelled(s@),
{
    let v = chars_of(s);
    let mut i: usize = 0;
    assert(s@.subrange(0, s@.len() as int) =~= s@);
    while i < v.len() && (v[i] == ':' || v[i] == ' ')
        invariant
            v@ == s@,
            i <= v@.len(),
            unlabelled(s@.subrange(i as int, s@.len() as int)) == unlabelled(s@),
        decreases v@.len() - i,
    {
        assert(s@.subrange(i as int, s@.len() as int).subrange(1, s@.len() - i) =~= s@.subrange(
            i + 1,
            s@.len() as int,
        ));
        i += 1;
    }
    string_of(v.as_slice(), i, v.len())
}

/// Takes a curve apart: an optional label, then `frequency gain` pairs that `;` separates.
pub fn graphic_eq_pairs(input: &str) -> (r: Vec<EqPair>)
    ensures
        pair_views(r@) == pairs_from(body_of(input@), 0),
{
    let t = trim(input);
    let body = if starts_with(t.as_str(), "GraphicEQ") {
        let v = chars_of(t.as_str());
        let n: usize = "GraphicEQ".unicode_len();
        unlabel(string_of(v.as_slice(), n, v.len()).as_str())
    } else {
        unlabel(input)
    };
    let v = chars_of(body.as_str());
    let n: usize = v.len();
    let mut out: Vec<EqPair> = Vec::new();
    let mut pos: usize = 0;
    assert(pair_views(out@) + pairs_from(body@, 0) =~= pairs_from(body@, 0));
    loop
        invariant
            v@ == body@,
            n == v@.len(),
            pos <= n,
            body@ == body_of(input@),
            pair_views(out@) + pairs_from(body@, pos as int) == pairs_from(body@, 0),
        decreases n - pos,
    {
        let end: usize = find_char(v.as_slice(), ';', pos);
        let piece = string_of(v.as_slice(), pos, end);
        let text = trim(piece.as_str());
        let words = split_words(text.as_str());
        let ghost w = crate::text::words(text@);
        let ghost done = pair_views(out@);
        let ghost rest = pairs_from(body@, end + 1);
        proof {
            assert(words@.len() == w.len()) by {
                assert(crate::text::texts(words@).len() == words@.len());
            }
            assert forall|i: int| 0 <= i < words@.len() implies (#[trigger] words@[i])@ == w[i] by {
                assert(crate::text::texts(words@)[i] == words@[i]@);
            }
        }
        if words.len() > 0 {
            let gain = if words.len() > 1 {
                Some(words[1].clone())
            } else {
                None
            };
            let pair = EqPair { text, freq: words[0].clone(), gain };
            let ghost view = pair@;
            out.push(pair);
            assert(pair_views(out@) =~= done.push(view));
            assert(pair_in(piece@) =~= seq![view]);
            assert(done + (seq![view] + rest) =~= pair_views(out@) + rest);
        } else {
            assert(done + (Seq::<EqPairView>::empty() + rest) =~= pair_views(out@) + rest);
        }
        if end >= n {
            proof {
                assert(rest =~= Seq::empty());
                assert(pair_views(out@) + rest =~= pair_views(out@));
            }
            return out;
        }
        pos = end + 1;
    }
}

/// What evaluating a pair gave: the bits of its numbers, or why one of them is none.
pub struct EqValues {
    pub freq: Result<u32, String>,
    /// Only where the pair has a gain.
    pub gain: Result<u32, String>,
}

/// The content of [`EqValues`].
pub struct EqValuesView {
    pub freq: Result<u32, Seq<char>>,
    pub gain: Result<u32, Seq<char>>,
}

/// What reading a number gave.
pub open spec fn number_said(v: Result<u32, String>) -> Result<u32, Seq<char>> {
    match v {
        Ok(n) => Ok(n),
        Err(e) => Err(e@),
    }
}

impl View for EqValues {
    type V = EqValuesView;

    open spec fn view(&self) -> EqValuesView {
        EqValuesView { freq: number_said(self.freq), gain: number_said(self.gain) }
    }
}

/// The contents of values.
pub open spec fn value_views(s: Seq<EqValues>) -> Seq<EqValuesView> {
    s.map_values(|v: EqValues| v@)
}

/// Why a pair is no point of a curve, if it is none.
pub open spec fn pair_fault(p: EqPairView, v: EqValuesView) -> Option<Seq<char>> {
    match v.freq {
        Err(e) => Some("bad frequency '"@ + p.text + "': "@ + e),
        Ok(_) => match p.gain {
            None => Some("missing gain in '"@ + p.text + "'"@),
            Some(_) => match v.gain {
                Err(e) => Some("bad gain '"@ + p.text + "': "@ + e),
                Ok(_) => None,
            },
        },
    }
}

/// The first fault from `from` on.
pub open spec fn first_fault(
    ps: Seq<EqPairView>,
    vs: Seq<EqValuesView>,
    from: int,
) -> Option<Seq<char>>
    decreases ps.len() - from,
{
    if !(0 <= from < ps.len()) {
        None
    } else {
        match pair_fault(ps[from], vs[from]) {
            Some(e) => Some(e),
            None => first_fault(ps, vs, from + 1),
        }
    }
}

/// Points with one more put behind every one that does not have a greater frequency.
pub open spec fn with_point(s: Seq<(u32, u32)>, p: (u32, u32)) -> Seq<(u32, u32)>
    decreases s.len(),
{
    if s.len() == 0 || !crate::float_bits::less(p.0, s.last().0) {
        s.push(p)
    } else {
        with_point(s.drop_last(), p).push(s.last())
    }
}

/// The points of evaluated pairs in the order of their frequencies.
pub open spec fn points_of(vs: Seq<EqValuesView>) -> Seq<(u32, u32)>
    decreases vs.len(),
{
    if vs.len() == 0 {
        Seq::empty()
    } else {
        with_point(points_of(vs.drop_last()), (vs.last().freq->Ok_0, vs.last().gain->Ok_0))
    }
}

proof fn lemma_with_point_at(s: Seq<(u32, u32)>, p: (u32, u32), at: int)
    requires
        0 <= at <= s.len(),
        at == 0 || !crate::float_bits::less(p.0, s[at - 1].0),
        forall|i: int| at <= i < s.len() ==> crate::float_bits::less(p.0, (#[trigger] s[i]).0),
    ensures
        with_point(s, p) == s.insert(at, p),
    decreases s.len(),
{
    if at == s.len() {
        assert(s.insert(at, p) =~= s.push(p));
    } else {
        assert(crate::float_bits::less(p.0, s[s.len() - 1].0));
        lemma_with_point_at(s.drop_last(), p, at);
        assert(s.drop_last().insert(at, p).push(s.last()) =~= s.insert(at, p));
    }
}

/// The points of evaluated pairs, in the order of their frequencies, or the first fault in them.
pub open spec fn points_or_fault(ps: Seq<EqPairView>, vs: Seq<EqValuesView>) -> Result<
    Seq<(u32, u32)>,
    Seq<char>,
> {
    match first_fault(ps, vs, 0) {
        Some(e) => Err(e),
        None => if ps.len() == 0 {
            Err("no (freq, gain) points found"@)
        } else {
            Ok(points_of(vs))
        },
    }
}

/// The points of evaluated pairs, in the order of their frequencies, or the first fault in them.
pub fn read_points(pairs: &Vec<EqPair>, values: &Vec<EqValues>) -> (r: Result<
    Vec<(u32, u32)>,
    String,
>)
    requires
        pairs@.len() == values@.len(),
    ensures
        match r {
            Ok(points) => points_or_fault(pair_views(pairs@), value_views(values@)) == Ok::<
                _,
                Seq<char>,
            >(points@),
            Err(e) => points_or_fault(pair_views(pairs@), value_views(values@)) == Err::<
                Seq<(u32, u32)>,
                _,
            >(e@),
        },
{
    let ghost ps = pair_views(pairs@);
    let ghost vs = value_views(values@);
    let mut points: Vec<(u32, u32)> = Vec::new();
    let mut i: usize = 0;
    assert(vs.take(0) =~= Seq::empty());
    while i < pairs.len()
        invariant
            i <= pairs@.len(),
            pairs@.len() == values@.len(),
            ps == pair_views(pairs@),
            vs == value_views(values@),
            first_fault(ps, vs, i as int) == first_fault(ps, vs, 0),
            points@ == points_of(vs.take(i as int)),
        decreases pairs@.len() - i,
    {
        let p = &pairs[i];
        let v = &values[i];
        assert(ps[i as int] == p@);
        assert(vs[i as int] == v@);
        assert(vs.take(i + 1).drop_last() =~= vs.take(i as int));
        let f: u32 = match &v.freq {
            Ok(f) => *f,
            Err(e) => {
                let mut text = join3("bad frequency '", p.text.as_str(), "': ");
                text.append(e.as_str());
                return Err(text);
            },
        };
        if p.gain.is_none() {
            return Err(join3("missing gain in '", p.text.as_str(), "'"));
        }
        let g: u32 = match &v.gain {
            Ok(g) => *g,
            Err(e) => {
                let mut text = join3("bad gain '", p.text.as_str(), "': ");
                text.append(e.as_str());
                return Err(text);
            },
        };
        let mut at: usize = points.len();
        while at > 0 && less_than(f, points[at - 1].0)
            invariant
                at <= points@.len(),
                forall|k: int|
                    at <= k < points@.len() ==> crate::float_bits::less(
                        f,
                        (#[trigger] points@[k]).0,
                    ),
            decreases at,
        {
            at -= 1;
        }
        proof {
            lemma_with_point_at(points@, (f, g), at as int);
        }
        points.insert(at, (f, g));
        i += 1;
    }
    assert(vs.take(i as int) =~= vs);
    if points.len() == 0 {
        proof {
            lemma_points_len(vs);
        }
        return Err("no (freq, gain) points found".to_owned());
    }
    proof {
        lemma_points_len(vs);
    }
    Ok(points)
}

/// The function that reads numbers takes every text.
pub open spec fn readable<P: Fn(&str) -> Result<u32, String>>(parse: P) -> bool {
    forall|s: &str| #[trigger] call_requires(parse, (s,))
}

/// The function `parse` always reads what `p` says.
pub open spec fn reads<P: Fn(&str) -> Result<u32, String>>(
    parse: P,
    p: spec_fn(Seq<char>) -> Result<u32, Seq<char>>,
) -> bool {
    forall|s: &str, v: Result<u32, String>| #[trigger]
        call_ensures(parse, (s,), v) ==> number_said(v) == p(s@)
}

/// What a pair evaluates to; a gain that is missing is read as zero.
pub open spec fn values_of(
    pair: EqPairView,
    p: spec_fn(Seq<char>) -> Result<u32, Seq<char>>,
) -> EqValuesView {
    EqValuesView {
        freq: p(pair.freq),
        gain: match pair.gain {
            Some(g) => p(g),
            None => Ok(0),
        },
    }
}

/// The points of a text in the order of their frequencies, or the first fault in it.
pub open spec fn curve_of_text(
    input: Seq<char>,
    p: spec_fn(Seq<char>) -> Result<u32, Seq<char>>,
) -> Result<Seq<(u32, u32)>, Seq<char>> {
    let pairs = pairs_from(body_of(input), 0);
    points_or_fault(pairs, pairs.map_values(|q: EqPairView| values_of(q, p)))
}

/// Reads a `GraphicEQ` curve: its points in the order of their frequencies, or the first fault.
pub fn parse_graphic_eq<P: Fn(&str) -> Result<u32, String>>(input: &str, parse: &P) -> (r: Result<
    Vec<(u32, u32)>,
    String,
>)
    requires
        readable(*parse),
    ensures
        forall|p: spec_fn(Seq<char>) -> Result<u32, Seq<char>>| #[trigger]
            reads(*parse, p) ==> match r {
                Ok(points) => curve_of_text(input@, p) == Ok::<_, Seq<char>>(points@),
                Err(e) => curve_of_text(input@, p) == Err::<Seq<(u32, u32)>, _>(e@),
            },
{
    let pairs: Vec<EqPair> = graphic_eq_pairs(input);
    let ghost ps = pair_views(pairs@);
    let mut values: Vec<EqValues> = Vec::new();
    while values.len() < pairs.len()
        invariant
            values@.len() <= pairs@.len(),
            ps == pair_views(pairs@),
            readable(*parse),
            forall|p: spec_fn(Seq<char>) -> Result<u32, Seq<char>>, i: int|
                0 <= i < values@.len() && #[trigger] reads(*parse, p) ==> (#[trigger] values@[i])@
                    == values_of(ps[i], p),
        decreases pairs@.len() - values@.len(),
    {
        let pair: &EqPair = &pairs[values.len()];
        assert(ps[values@.len() as int] == pair@);
        let freq = parse(pair.freq.as_str());
        let gain = match &pair.gain {
            Some(g) => parse(g.as_str()),
            None => Ok(0),
        };
        values.push(EqValues { freq, gain });
    }
    assert forall|p: spec_fn(Seq<char>) -> Result<u32, Seq<char>>| #[trigger]
        reads(*parse, p) implies value_views(values@) == ps.map_values(
        |q: EqPairView| values_of(q, p),
    ) by {
        assert(value_views(values@) =~= ps.map_values(|q: EqPairView| values_of(q, p)));
    }
    read_points(&pairs, &values)
}

proof fn lemma_with_point_len(s: Seq<(u32, u32)>, p: (u32, u32))
    ensures
        with_point(s, p).len() == s.len() + 1,
    decreases s.len(),
{
    if s.len() > 0 && crate::float_bits::less(p.0, s.last().0) {
        lemma_with_point_len(s.drop_last(), p);
    }
}

proof fn lemma_points_len(vs: Seq<EqValuesView>)
    ensures
        points_of(vs).len() == vs.len(),
    decreases vs.len(),
{
    if vs.len() > 0 {
        lemma_points_len(vs.drop_last());
        lemma_with_point_len(
            points_of(vs.drop_last()),
            (vs.last().freq->Ok_0, vs.last().gain->Ok_0),
        );
    }
}

/// The points of a curve never fall in frequency, where every frequency is defined.
pub proof fn law_points_are_sorted(vs: Seq<EqValuesView>)
    requires
        forall|i: int|
            0 <= i < vs.len() ==> !crate::float_bits::undefined((#[trigger] vs[i]).freq->Ok_0),
    ensures
        forall|i: int, j: int|
            0 <= i < j < points_of(vs).len() ==> crate::float_bits::at_most(
                (#[trigger] points_of(vs)[i]).0,
                (#[trigger] points_of(vs)[j]).0,
            ),
    decreases vs.len(),
{
    if vs.len() > 0 {
        assert forall|i: int| 0 <= i < vs.drop_last().len() implies !crate::float_bits::undefined(
            (#[trigger] vs.drop_last()[i]).freq->Ok_0,
        ) by {
            assert(vs[i] == vs.drop_last()[i]);
        }
        law_points_are_sorted(vs.drop_last());
        lemma_points_defined(vs.drop_last());
        assert(vs.last() == vs[vs.len() - 1]);
        lemma_with_point_sorted(
            points_of(vs.drop_last()),
            (vs.last().freq->Ok_0, vs.last().gain->Ok_0),
        );
    }
}

proof fn lemma_points_defined(vs: Seq<EqValuesView>)
    requires
        forall|i: int|
            0 <= i < vs.len() ==> !crate::float_bits::undefined((#[trigger] vs[i]).freq->Ok_0),
    ensures
        forall|i: int|
            0 <= i < points_of(vs).len() ==> !crate::float_bits::undefined(
                (#[trigger] points_of(vs)[i]).0,
            ),
    decreases vs.len(),
{
    if vs.len() > 0 {
        assert forall|i: int| 0 <= i < vs.drop_last().len() implies !crate::float_bits::undefined(
            (#[trigger] vs.drop_last()[i]).freq->Ok_0,
        ) by {
            assert(vs[i] == vs.drop_last()[i]);
        }
        lemma_points_defined(vs.drop_last());
        assert(vs.last() == vs[vs.len() - 1]);
        lemma_with_point_defined(
            points_of(vs.drop_last()),
            (vs.last().freq->Ok_0, vs.last().gain->Ok_0),
        );
    }
}

proof fn lemma_with_point_defined(s: Seq<(u32, u32)>, p: (u32, u32))
    requires
        !crate::float_bits::undefined(p.0),
        forall|i: int| 0 <= i < s.len() ==> !crate::float_bits::undefined((#[trigger] s[i]).0),
    ensures
        forall|i: int|
            0 <= i < with_point(s, p).len() ==> !crate::float_bits::undefined(
                (#[trigger] with_point(s, p)[i]).0,
            ),
    decreases s.len(),
{
    let t = with_point(s, p);
    if s.len() > 0 && crate::float_bits::less(p.0, s.last().0) {
        let u = with_point(s.drop_last(), p);
        lemma_with_point_defined(s.drop_last(), p);
        assert forall|i: int| 0 <= i < t.len() implies !crate::float_bits::undefined(
            (#[trigger] t[i]).0,
        ) by {
            if i < u.len() {
                assert(t[i] == u[i]);
            }
        }
    } else {
        assert forall|i: int| 0 <= i < t.len() implies !crate::float_bits::undefined(
            (#[trigger] t[i]).0,
        ) by {
            if i < s.len() {
                assert(t[i] == s[i]);
            }
        }
    }
}

proof fn lemma_with_point_sorted(s: Seq<(u32, u32)>, p: (u32, u32))
    requires
        !crate::float_bits::undefined(p.0),
        forall|i: int| 0 <= i < s.len() ==> !crate::float_bits::undefined((#[trigger] s[i]).0),
        forall|i: int, j: int|
            0 <= i < j < s.len() ==> crate::float_bits::at_most(
                (#[trigger] s[i]).0,
                (#[trigger] s[j]).0,
            ),
    ensures
        forall|i: int, j: int|
            0 <= i < j < with_point(s, p).len() ==> crate::float_bits::at_most(
                (#[trigger] with_point(s, p)[i]).0,
                (#[trigger] with_point(s, p)[j]).0,
            ),
        forall|i: int|
            0 <= i < with_point(s, p).len() ==> crate::float_bits::at_most(
                (#[trigger] with_point(s, p)[i]).0,
                p.0,
            ) || (s.len() > 0 && crate::float_bits::at_most(
                with_point(s, p)[i].0,
                s.last().0,
            )),
    decreases s.len(),
{
    let t = with_point(s, p);
    if s.len() > 0 && crate::float_bits::less(p.0, s.last().0) {
        let head = s.drop_last();
        assert forall|i: int, j: int| 0 <= i < j < head.len() implies crate::float_bits::at_most(
            (#[trigger] head[i]).0,
            (#[trigger] head[j]).0,
        ) by {
            assert(s[i] == head[i] && s[j] == head[j]);
        }
        lemma_with_point_sorted(head, p);
        let u = with_point(head, p);
        assert forall|i: int, j: int| 0 <= i < j < t.len() implies crate::float_bits::at_most(
            (#[trigger] t[i]).0,
            (#[trigger] t[j]).0,
        ) by {
            if j < u.len() {
                assert(t[i] == u[i] && t[j] == u[j]);
            } else {
                assert(t[i] == u[i]);
                assert(t[j] == s.last());
                if head.len() > 0 {
                    assert(head.last() == s[s.len() - 2]);
                    assert(s.last() == s[s.len() - 1]);
                }
            }
        }
        assert forall|i: int| 0 <= i < t.len() implies crate::float_bits::at_most(
            (#[trigger] t[i]).0,
            p.0,
        ) || crate::float_bits::at_most(t[i].0, s.last().0) by {
            if i < u.len() {
                assert(t[i] == u[i]);
                if head.len() > 0 {
                    assert(head.last() == s[s.len() - 2]);
                    assert(s.last() == s[s.len() - 1]);
                }
            }
        }
    } else if s.len() > 0 {
        assert forall|i: int, j: int| 0 <= i < j < t.len() implies crate::float_bits::at_most(
            (#[trigger] t[i]).0,
            (#[trigger] t[j]).0,
        ) by {
            if j < s.len() {
                assert(t[i] == s[i] && t[j] == s[j]);
            } else {
                assert(t[i] == s[i]);
                assert(s.last() == s[s.len() - 1]);
            }
        }
        assert forall|i: int| 0 <= i < t.len() implies crate::float_bits::at_most(
            (#[trigger] t[i]).0,
            p.0,
        ) by {
            if i < s.len() {
                assert(t[i] == s[i]);
                assert(s.last() == s[s.len() - 1]);
            }
        }
    }
}

/// Where a frequency stands in a curve.
#[derive(Debug, Clone, Copy, PartialEq, Eq, Structural)]
pub enum Place {
    /// The curve has no points.
    Nowhere,
    /// At or below the first point.
    First,
    /// At or above the last point.
    Last,
    /// Between the point with this index and the next.
    Between(usize),
}

/// The last of the points from `j` on in front of the first one that is not below `center`.
pub open spec fn bracket_from(curve: Seq<(u32, u32)>, center: u32, j: int) -> int
    decreases curve.len() - j,
{
    if 0 <= j && j + 1 < curve.len() && crate::float_bits::less(curve[j + 1].0, center) {
        bracket_from(curve, center, j + 1)
    } else {
        j
    }
}

/// Where a frequency stands in a curve.
pub open spec fn place_in(curve: Seq<(u32, u32)>, center: u32) -> Place {
    if curve.len() == 0 {
        Place::Nowhere
    } else if crate::float_bits::at_most(center, curve[0].0) {
        Place::First
    } else if crate::float_bits::at_most(curve.last().0, center) {
        Place::Last
    } else {
        Place::Between(bracket_from(curve, center, 0) as usize)
    }
}

/// Finds where a frequency stands in a curve.
pub fn place_of(curve: &Vec<(u32, u32)>, center: u32) -> (r: Place)
    ensures
        r == place_in(curve@, center),
        r matches Place::Between(j) ==> (curve@.len() > 1 ==> j + 1 < curve@.len()),
{
    if curve.len() == 0 {
        return Place::Nowhere;
    }
    if not_above(center, curve[0].0) {
        return Place::First;
    }
    if not_above(curve[curve.len() - 1].0, center) {
        return Place::Last;
    }
    let n: usize = curve.len();
    let mut j: usize = 0;
    while j + 1 < n && less_than(curve[j + 1].0, center)
        invariant
            n == curve@.len(),
            n > 0,
            j < n,
            !crate::float_bits::at_most(curve@.last().0, center),
            bracket_from(curve@, center, j as int) == bracket_from(curve@, center, 0),
            n > 1 ==> j + 1 < n,
        decreases n - j,
    {
        j += 1;
        if j + 1 >= n {
            assert(crate::float_bits::less(curve@[n - 1].0, center));
            assert(curve@.last() == curve@[n - 1]);
        }
    }
    Place::Between(j)
}

/// The bits of the smallest difference between logarithms that counts.
pub const SPAN_MARGIN: u32 = 0x3400_0000;

/// The logarithm of a frequency, which is taken as 1 Hz where it is lower or undefined.
pub open spec fn log_of(freq: u32, g: spec_fn(Calc, u32, u32) -> u32) -> u32 {
    g(Calc::Log10, crate::dsp::arith::larger(freq, ONE_BITS), 0)
}

/// The gain at a frequency between two points: on a line over the logarithm of the frequency.
pub open spec fn gain_between(
    a: (u32, u32),
    b: (u32, u32),
    center: u32,
    g: spec_fn(Calc, u32, u32) -> u32,
) -> u32 {
    let from = log_of(a.0, g);
    let span = g(Calc::Sub, log_of(b.0, g), from);
    let share = if crate::float_bits::magnitude(span) < SPAN_MARGIN {
        0
    } else {
        g(Calc::Div, g(Calc::Sub, log_of(center, g), from), span)
    };
    g(Calc::Add, a.1, g(Calc::Mul, g(Calc::Sub, b.1, a.1), share))
}

/// The gain of a curve at a frequency: beyond the ends that of the end, without points none.
pub open spec fn gain_at(
    curve: Seq<(u32, u32)>,
    center: u32,
    g: spec_fn(Calc, u32, u32) -> u32,
) -> u32 {
    match place_in(curve, center) {
        Place::Nowhere => 0,
        Place::First => curve[0].1,
        Place::Last => curve.last().1,
        Place::Between(j) => gain_between(curve[j as int], curve[j + 1], center, g),
    }
}

/// The gains of a curve at the bands of the equalizer.
pub open spec fn gains_of(curve: Seq<(u32, u32)>, g: spec_fn(Calc, u32, u32) -> u32) -> Seq<u32> {
    Seq::new(31, |i: int| gain_at(curve, crate::presets::center_bits()[i], g))
}

/// Takes the gains of a curve at the bands of the equalizer. A single point must have a frequency.
pub fn interpolate_to_iso_bands<F: Fn(Calc, u32, u32) -> u32>(
    curve: &Vec<(u32, u32)>,
    f: &F,
) -> (r: [u32; 31])
    requires
        curve@.len() == 1 ==> !crate::float_bits::undefined(curve@[0].0),
        crate::dsp::arith::callable(*f),
    ensures
        forall|g: spec_fn(Calc, u32, u32) -> u32| #[trigger]
            crate::dsp::arith::computes(*f, g) ==> r@ == gains_of(curve@, g),
{
    let centers: [u32; 31] = iso_bits();
    let n: usize = curve.len();
    let mut out: [u32; 31] = [0u32; 31];
    let mut i: usize = 0;
    while i < 31
        invariant
            i <= 31,
            n == curve@.len(),
            centers@ == crate::presets::center_bits(),
            curve@.len() == 1 ==> !crate::float_bits::undefined(curve@[0].0),
            crate::dsp::arith::callable(*f),
            forall|g: spec_fn(Calc, u32, u32) -> u32, k: int|
                0 <= k < i && #[trigger] crate::dsp::arith::computes(*f, g) ==> #[trigger] out@[k]
                    == gain_at(curve@, centers@[k], g),
        decreases 31 - i,
    {
        let center: u32 = centers[i];
        assert(!crate::float_bits::undefined(center)) by {
            assert(center == crate::presets::center_bits()[i as int]);
        }
        let gain: u32 = match place_of(curve, center) {
            Place::Nowhere => 0,
            Place::First => curve[0].1,
            Place::Last => curve[n - 1].1,
            Place::Between(j) => {
                let (a, b): ((u32, u32), (u32, u32)) = (curve[j], curve[j + 1]);
                let from: u32 = apply(f, Calc::Log10, larger_of(a.0, ONE_BITS), 0);
                let to: u32 = apply(f, Calc::Log10, larger_of(b.0, ONE_BITS), 0);
                let at: u32 = apply(f, Calc::Log10, larger_of(center, ONE_BITS), 0);
                let span: u32 = apply(f, Calc::Sub, to, from);
                let share: u32 = if bits_magnitude(span) < SPAN_MARGIN {
                    0
                } else {
                    let way: u32 = apply(f, Calc::Sub, at, from);
                    apply(f, Calc::Div, way, span)
                };
                let rise: u32 = apply(f, Calc::Sub, b.1, a.1);
                let part: u32 = apply(f, Calc::Mul, rise, share);
                apply(f, Calc::Add, a.1, part)
            },
        };
        out[i] = gain;
        i += 1;
    }
    assert forall|g: spec_fn(Calc, u32, u32) -> u32| #[trigger]
        crate::dsp::arith::computes(*f, g) implies out@ == gains_of(curve@, g) by {
        assert(out@ =~= gains_of(curve@, g));
    }
    out
}

/// Below the first point of a curve its gain is that of the first, above the last that of the last.
pub proof fn law_curves_are_level_beyond_their_ends(
    curve: Seq<(u32, u32)>,
    center: u32,
    g: spec_fn(Calc, u32, u32) -> u32,
)
    requires
        curve.len() > 0,
    ensures
        crate::float_bits::at_most(center, curve[0].0) ==> gain_at(curve, center, g) == curve[0].1,
        crate::float_bits::at_most(curve.last().0, center) && !crate::float_bits::at_most(
            center,
            curve[0].0,
        ) ==> gain_at(curve, center, g) == curve.last().1,
{
}

/// Logarithms of numbers from one on rise from zero on, and are not large.
pub open spec fn logarithms(g: spec_fn(Calc, u32, u32) -> u32) -> bool {
    &&& crate::dsp::numbers::zero(g(Calc::Log10, ONE_BITS, 0))
    &&& forall|a: u32, b: u32|
        #![trigger g(Calc::Log10, a, 0), g(Calc::Log10, b, 0)]
        crate::float_bits::at_most(ONE_BITS, a) && crate::float_bits::at_most(a, b)
            ==> crate::float_bits::at_most(g(Calc::Log10, a, 0), g(Calc::Log10, b, 0))
    &&& forall|f: u32|
        crate::float_bits::at_most(ONE_BITS, f) && crate::float_bits::finite(f)
            ==> crate::dsp::numbers::within(#[trigger] g(Calc::Log10, f, 0), 6)
}

/// Between two points a rising curve does not go below the lower of them, at a point it has the gain
/// of the point, and a level curve stays level.
pub proof fn law_curves_rise_between_their_points(
    a: (u32, u32),
    b: (u32, u32),
    center: u32,
    g: spec_fn(Calc, u32, u32) -> u32,
)
    requires
        crate::dsp::numbers::ordinary(g),
        logarithms(g),
        crate::float_bits::at_most(ONE_BITS, a.0),
        crate::float_bits::at_most(a.0, center),
        crate::float_bits::at_most(center, b.0),
        crate::float_bits::finite(b.0),
        crate::dsp::numbers::within(a.1, 20),
        crate::dsp::numbers::within(b.1, 20),
    ensures
        crate::float_bits::less(a.1, b.1) ==> crate::float_bits::at_most(
            a.1,
            gain_between(a, b, center, g),
        ),
        crate::float_bits::less(b.1, a.1) ==> crate::float_bits::at_most(
            gain_between(a, b, center, g),
            a.1,
        ),
        crate::float_bits::same(a.1, b.1) ==> crate::float_bits::same(
            gain_between(a, b, center, g),
            a.1,
        ),
        crate::float_bits::same(center, a.0) ==> crate::float_bits::same(
            gain_between(a, b, center, g),
            a.1,
        ),
{
    lemma_share(a.0, b.0, center, g);
    reveal(crate::dsp::numbers::ordinary);
    let from = log_of(a.0, g);
    let span = g(Calc::Sub, log_of(b.0, g), from);
    let share = if crate::float_bits::magnitude(span) < SPAN_MARGIN {
        0
    } else {
        g(Calc::Div, g(Calc::Sub, log_of(center, g), from), span)
    };
    let rise = g(Calc::Sub, b.1, a.1);
    assert(crate::dsp::numbers::within(rise, 21));
    let part = g(Calc::Mul, rise, share);
    let none = g(Calc::Mul, rise, 0);
    assert(crate::dsp::numbers::within(share, 30));
    if crate::float_bits::less(a.1, b.1) {
        assert(crate::dsp::numbers::positive(rise));
        assert(crate::float_bits::at_most(none, part));
        assert(crate::float_bits::at_most(g(Calc::Add, a.1, none), g(Calc::Add, a.1, part)));
    }
    if crate::float_bits::less(b.1, a.1) {
        assert(crate::float_bits::at_most(rise, g(Calc::Sub, b.1, b.1)));
        if crate::float_bits::less(0, share) {
            assert(crate::float_bits::at_most(part, g(Calc::Mul, 0, share)));
        } else {
            assert(crate::dsp::numbers::zero(part));
        }
        assert(crate::float_bits::at_most(g(Calc::Add, a.1, part), g(Calc::Add, a.1, 0)));
    }
    if crate::float_bits::same(a.1, b.1) {
        assert(crate::dsp::numbers::zero(rise));
        assert(crate::dsp::numbers::zero(part));
    }
    if crate::float_bits::same(center, a.0) {
        assert(crate::dsp::numbers::zero(share));
        assert(crate::dsp::numbers::zero(part));
    }
}

proof fn lemma_share(a: u32, b: u32, center: u32, g: spec_fn(Calc, u32, u32) -> u32)
    requires
        crate::dsp::numbers::ordinary(g),
        logarithms(g),
        crate::float_bits::at_most(ONE_BITS, a),
        crate::float_bits::at_most(a, center),
        crate::float_bits::at_most(center, b),
        crate::float_bits::finite(b),
    ensures
        ({
            let from = log_of(a, g);
            let span = g(Calc::Sub, log_of(b, g), from);
            let share = if crate::float_bits::magnitude(span) < SPAN_MARGIN {
                0
            } else {
                g(Calc::Div, g(Calc::Sub, log_of(center, g), from), span)
            };
            &&& crate::float_bits::at_most(0, share)
            &&& crate::dsp::numbers::within(share, 30)
            &&& crate::float_bits::same(center, a) ==> crate::dsp::numbers::zero(share)
        }),
{
    reveal(crate::dsp::numbers::ordinary);
    let (p, q, r) = (
        crate::dsp::arith::larger(a, ONE_BITS),
        crate::dsp::arith::larger(center, ONE_BITS),
        crate::dsp::arith::larger(b, ONE_BITS),
    );
    assert(crate::float_bits::at_most(p, q) && crate::float_bits::at_most(q, r));
    assert(crate::float_bits::at_most(ONE_BITS, p) && crate::float_bits::finite(r));
    let (x, y, z) = (g(Calc::Log10, p, 0), g(Calc::Log10, q, 0), g(Calc::Log10, r, 0));
    assert(crate::float_bits::at_most(x, y) && crate::float_bits::at_most(y, z));
    assert(crate::dsp::numbers::within(x, 6) && crate::dsp::numbers::within(y, 6)
        && crate::dsp::numbers::within(z, 6));
    let span = g(Calc::Sub, z, x);
    assert(crate::float_bits::at_most(g(Calc::Sub, x, x), span));
    let way = g(Calc::Sub, y, x);
    assert(crate::float_bits::at_most(g(Calc::Sub, x, x), way));
    assert(crate::dsp::numbers::within(way, 7) && crate::dsp::numbers::within(span, 7));
    if crate::float_bits::magnitude(span) >= SPAN_MARGIN {
        assert(crate::dsp::numbers::reaches(span, 23));
        assert(crate::dsp::numbers::positive(span));
        let share = g(Calc::Div, way, span);
        assert(crate::float_bits::at_most(g(Calc::Div, 0, span), share));
        assert(crate::dsp::numbers::within(share, 30));
        if crate::float_bits::same(center, a) {
            assert(crate::float_bits::at_most(q, p));
            assert(crate::float_bits::at_most(y, x));
            assert(crate::dsp::numbers::zero(way));
        }
    }
}

/// The greatest gain above zero among the bands, or zero.
pub open spec fn peak_rank(bands: Seq<u32>) -> int
    decreases bands.len(),
{
    if bands.len() == 0 {
        0
    } else {
        let rest = peak_rank(bands.drop_last());
        let r = crate::float_bits::rank(bands.last());
        if !crate::float_bits::undefined(bands.last()) && r > rest {
            r
        } else {
            rest
        }
    }
}

/// The gain in front of the bands that keeps the greatest of them from rising above zero.
pub fn recommended_preamp(bands: &[u32; 31]) -> (r: u32)
    ensures
        !crate::float_bits::undefined(r),
        crate::float_bits::rank(r) == -peak_rank(bands@),
{
    let mut peak: u32 = 0;
    let mut i: usize = 0;
    assert(bands@.take(0) =~= Seq::empty());
    while i < 31
        invariant
            i <= 31,
            bands@.len() == 31,
            peak < SIGN_BIT,
            !crate::float_bits::undefined(peak),
            crate::float_bits::rank(peak) == peak_rank(bands@.take(i as int)),
        decreases 31 - i,
    {
        assert(bands@.take(i + 1).drop_last() =~= bands@.take(i as int));
        let b: u32 = bands[i];
        if !is_undefined(b) && less_than(peak, b) {
            peak = b;
        }
        i += 1;
    }
    assert(bands@.take(i as int) =~= bands@);
    negate(peak)
}

/// The recommended gain cancels the greatest band, and is zero where no band rises above zero.
pub proof fn law_preamp_prevents_clipping(bands: Seq<u32>, i: int)
    requires
        0 <= i < bands.len(),
        !crate::float_bits::undefined(bands[i]),
    ensures
        crate::float_bits::rank(bands[i]) <= peak_rank(bands),
        peak_rank(bands) >= 0,
    decreases bands.len(),
{
    if i < bands.len() - 1 {
        assert(bands.drop_last()[i] == bands[i]);
        law_preamp_prevents_clipping(bands.drop_last(), i);
    } else {
        lemma_peak_positive(bands.drop_last());
    }
}

proof fn lemma_peak_positive(bands: Seq<u32>)
    ensures
        peak_rank(bands) >= 0,
    decreases bands.len(),
{
    if bands.len() > 0 {
        lemma_peak_positive(bands.drop_last());
    }
}

} // verus!
