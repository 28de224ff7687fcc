//! Import of `.vdc` correction files: one line for each sample rate, with the coefficients of a
//! cascade of filters. The text is taken apart and checked here; the function that reads numbers, as
//! bits of double precision values, is handed in, and so is the arithmetic on them.

use vstd::prelude::*;
use crate::float_bits::{is_finite64, negate64, INFINITY_BITS_64, SIGN_BIT_64};
use crate::presets::iso_bits;
use crate::text::{chars_of, decimal_text, find_char, join3, starts_with, string_of, trim};
use crate::wide::{apply, larger_of64, less_than64, narrow, Wide, ONE_WIDE, TURN_WIDE, TWO_WIDE};

verus! {

/// The bits of 44099, 44101, 47999 and 48001.
pub const BELOW_44100: u64 = 0x40e5_8860_0000_0000;

pub const ABOVE_44100: u64 = 0x40e5_88a0_0000_0000;

pub const BELOW_48000: u64 = 0x40e7_6fe0_0000_0000;

pub const ABOVE_48000: u64 = 0x40e7_7020_0000_0000;

/// A line of a file: the rate and the coefficients as they are written.
#[derive(Debug, PartialEq, Eq)]
pub struct VdcLine {
    pub rate: String,
    pub body: String,
}

/// The rate and the coefficients in a line, where it is of the form `SR_rate:coefficients`.
pub open spec fn line_in(line: Seq<char>) -> Seq<(Seq<char>, Seq<char>)> {
    let t = crate::text::trimmed(line);
    let prefix = "SR_"@;
    if !crate::text::starts(t, prefix) {
        Seq::empty()
    } else {
        let rest = t.subrange(prefix.len() as int, t.len() as int);
        let colon = crate::text::char_from(rest, ':', 0);
        if colon >= rest.len() {
            Seq::empty()
        } else {
            seq![
                (
                    crate::text::trimmed(rest.subrange(0, colon)),
                    rest.subrange(colon + 1, rest.len() as int),
                ),
            ]
        }
    }
}

/// The lines of a file from `pos` on that name a rate.
pub open spec fn lines_from(s: Seq<char>, pos: int) -> Seq<(Seq<char>, Seq<char>)>
    decreases s.len() + 1 - pos,
{
    if !(0 <= pos <= s.len()) {
        Seq::empty()
    } else {
        let end = crate::text::char_from(s, '\n', pos);
        proof {
            crate::text::lemma_char_from(s, '\n', pos);
        }
        line_in(s.subrange(pos, end)) + lines_from(s, end + 1)
    }
}

/// The contents of lines.
pub open spec fn line_views(s: Seq<VdcLine>) -> Seq<(Seq<char>, Seq<char>)> {
    s.map_values(|l: VdcLine| (l.rate@, l.body@))
}

fn read_line(line: &str) -> (r: Option<VdcLine>)
    ensures
        match r {
            Some(l) => line_in(line@) == seq![(l.rate@, l.body@)],
            None => line_in(line@).len() == 0,
        },
{
    let t = trim(line);
    if !starts_with(t.as_str(), "SR_") {
        return None;
    }
    let v = chars_of(t.as_str());
    let from: usize = "SR_".unicode_len();
    let w = chars_of(string_of(v.as_slice(), from, v.len()).as_str());
    let colon: usize = find_char(w.as_slice(), ':', 0);
    if colon >= w.len() {
        return None;
    }
    let rate = trim(string_of(w.as_slice(), 0, colon).as_str());
    let body = string_of(w.as_slice(), colon + 1, w.len());
    Some(VdcLine { rate, body })
}

/// The lines of a file that name a rate.
pub fn vdc_lines(input: &str) -> (r: Vec<VdcLine>)
    ensures
        line_views(r@) == lines_from(input@, 0),
{
    let v = chars_of(input);
    let n: usize = v.len();
    let mut out: Vec<VdcLine> = Vec::new();
    let mut pos: usize = 0;
    assert(line_views(out@) + lines_from(input@, 0) =~= lines_from(input@, 0));
    loop
        invariant
            v@ == input@,
            n == v@.len(),
            pos <= n,
            line_views(out@) + lines_from(input@, pos as int) == lines_from(input@, 0),
        decreases n - pos,
    {
        let end: usize = find_char(v.as_slice(), '\n', pos);
        let line = string_of(v.as_slice(), pos, end);
        let ghost done = line_views(out@);
        let ghost rest = lines_from(input@, end + 1);
        match read_line(line.as_str()) {
            Some(l) => {
                let ghost view = (l.rate@, l.body@);
                out.push(l);
                assert(line_views(out@) =~= done.push(view));
                assert(done + (seq![view] + rest) =~= line_views(out@) + rest);
            },
            None => {
                assert(done + (line_in(line@) + rest) =~= line_views(out@) + rest);
            },
        }
        if end >= n {
            proof {
                assert(rest =~= Seq::empty());
                assert(line_views(out@) + rest =~= line_views(out@));
            }
            return out;
        }
        pos = end + 1;
    }
}

/// How welcome a rate is: 44.1 kHz before 48 kHz before any other.
pub open spec fn rate_rank(rate: u64) -> int {
    if BELOW_44100 < rate < ABOVE_44100 {
        0
    } else if BELOW_48000 < rate < ABOVE_48000 {
        1
    } else {
        2
    }
}

fn rank_of_rate(rate: u64) -> (r: u8)
    ensures
        r == rate_rank(rate),
{
    if BELOW_44100 < rate && rate < ABOVE_44100 {
        0
    } else if BELOW_48000 < rate && rate < ABOVE_48000 {
        1
    } else {
        2
    }
}

/// The line to take of those in front of `n`: of the lines whose rate is a number the most
/// welcome one, and of two that are equally welcome the earlier.
pub open spec fn chosen(rates: Seq<Option<u64>>, n: int) -> Option<int>
    decreases n,
{
    if n <= 0 || n > rates.len() {
        None
    } else {
        let before = chosen(rates, n - 1);
        match (rates[n - 1], before) {
            (None, _) => before,
            (Some(_), None) => Some(n - 1),
            (Some(r), Some(b)) => if rate_rank(r) < rate_rank(rates[b]->0) {
                Some(n - 1)
            } else {
                before
            },
        }
    }
}

/// Picks the line to take, from what its rate evaluates to.
pub fn choose_line(rates: &Vec<Option<u64>>) -> (r: Option<usize>)
    ensures
        match r {
            Some(i) => chosen(rates@, rates@.len() as int) == Some(i as int) && i < rates@.len()
                && rates@[i as int] is Some,
            None => chosen(rates@, rates@.len() as int) is None,
        },
{
    let mut best: Option<usize> = None;
    let mut rank: u8 = 3;
    let mut i: usize = 0;
    while i < rates.len()
        invariant
            i <= rates@.len(),
            match best {
                Some(b) => chosen(rates@, i as int) == Some(b as int) && b < i && rates@[b as int]
                    is Some && rank == rate_rank(rates@[b as int]->0),
                None => chosen(rates@, i as int) is None,
            },
        decreases rates@.len() - i,
    {
        if let Some(r) = rates[i] {
            let k: u8 = rank_of_rate(r);
            if best.is_none() || k < rank {
                best = Some(i);
                rank = k;
            }
        }
        i += 1;
    }
    best
}

/// No rate that is a number is more welcome than the chosen one, and none as welcome stands in
/// front of it; without a choice there is no such rate.
pub proof fn law_choice_is_the_first_best(rates: Seq<Option<u64>>, n: int)
    requires
        0 <= n <= rates.len(),
    ensures
        match chosen(rates, n) {
            Some(b) => {
                &&& 0 <= b < n
                &&& rates[b] is Some
                &&& forall|i: int|
                    0 <= i < n && (#[trigger] rates[i]) is Some ==> rate_rank(rates[b]->0)
                        <= rate_rank(rates[i]->0)
                &&& forall|i: int|
                    0 <= i < b && (#[trigger] rates[i]) is Some ==> rate_rank(rates[b]->0)
                        < rate_rank(rates[i]->0)
            },
            None => forall|i: int| 0 <= i < n ==> (#[trigger] rates[i]) is None,
        },
    decreases n,
{
    if n > 0 {
        law_choice_is_the_first_best(rates, n - 1);
    }
}

/// A token between commas, without white space around it; a blank one is none.
pub open spec fn token_in(piece: Seq<char>) -> Seq<Seq<char>> {
    let t = crate::text::trimmed(piece);
    if t.len() == 0 {
        Seq::empty()
    } else {
        seq![t]
    }
}

/// The tokens of a list from `pos` on.
pub open spec fn tokens_from(s: Seq<char>, pos: int) -> Seq<Seq<char>>
    decreases s.len() + 1 - pos,
{
    if !(0 <= pos <= s.len()) {
        Seq::empty()
    } else {
        let end = crate::text::char_from(s, ',', pos);
        proof {
            crate::text::lemma_char_from(s, ',', pos);
        }
        token_in(s.subrange(pos, end)) + tokens_from(s, end + 1)
    }
}

/// The coefficients of a line as they are written.
pub fn vdc_tokens(body: &str) -> (r: Vec<String>)
    ensures
        crate::text::texts(r@) == tokens_from(body@, 0),
{
    let v = chars_of(body);
    let n: usize = v.len();
    let mut out: Vec<String> = Vec::new();
    let mut pos: usize = 0;
    assert(crate::text::texts(out@) + tokens_from(body@, 0) =~= tokens_from(body@, 0));
    loop
        invariant
            v@ == body@,
            n == v@.len(),
            pos <= n,
            crate::text::texts(out@) + tokens_from(body@, pos as int) == tokens_from(body@, 0),
        decreases n - pos,
    {
        let end: usize = find_char(v.as_slice(), ',', pos);
        let token = trim(string_of(v.as_slice(), pos, end).as_str());
        let ghost done = crate::text::texts(out@);
        let ghost rest = tokens_from(body@, end + 1);
        let ghost view = token@;
        if !token.as_str().is_empty() {
            out.push(token);
            assert(crate::text::texts(out@) =~= done.push(view));
            assert(done + (seq![view] + rest) =~= crate::text::texts(out@) + rest);
        } else {
            assert(done + (Seq::<Seq<char>>::empty() + rest) =~= crate::text::texts(out@) + rest);
        }
        if end >= n {
            proof {
                assert(rest =~= Seq::empty());
                assert(crate::text::texts(out@) + rest =~= crate::text::texts(out@));
            }
            return out;
        }
        pos = end + 1;
    }
}

/// A correction: the sample rate its filters are made for, and the filters, each as
/// `b0, b1, b2, a1, a2`.
#[derive(Debug, Clone, PartialEq, Eq)]
pub struct VdcCurve {
    pub sample_rate: u64,
    pub biquads: Vec<[u64; 5]>,
}

/// What reading a number gave.
pub open spec fn number_said(v: Result<u64, String>) -> Result<u64, Seq<char>> {
    match v {
        Ok(n) => Ok(n),
        Err(e) => Err(e@),
    }
}

/// What reading numbers gave.
pub open spec fn numbers_said(s: Seq<Result<u64, String>>) -> Seq<Result<u64, Seq<char>>> {
    s.map_values(|v: Result<u64, String>| number_said(v))
}

/// Why a token is no coefficient, if it is none.
pub open spec fn token_fault(token: Seq<char>, value: Result<u64, Seq<char>>) -> Option<Seq<char>> {
    match value {
        Err(e) => Some("bad coefficient '"@ + token + "': "@ + e),
        Ok(v) => if crate::float_bits::finite64(v) {
            None
        } else {
            Some("non-finite coefficient '"@ + token + "'"@)
        },
    }
}

/// The first fault from `from` on.
pub open spec fn first_fault(
    tokens: Seq<Seq<char>>,
    values: Seq<Result<u64, Seq<char>>>,
    from: int,
) -> Option<Seq<char>>
    decreases tokens.len() - from,
{
    if !(0 <= from < tokens.len()) {
        None
    } else {
        match token_fault(tokens[from], values[from]) {
            Some(e) => Some(e),
            None => first_fault(tokens, values, from + 1),
        }
    }
}

/// A rate that filters can be made for.
pub open spec fn usable_rate(rate: u64) -> bool {
    0 < rate < INFINITY_BITS_64
}

/// Why a line gives no correction, if it gives none; `shown` is its rate as it is to be shown.
pub open spec fn curve_fault(
    rate: u64,
    shown: Seq<char>,
    tokens: Seq<Seq<char>>,
    values: Seq<Result<u64, Seq<char>>>,
) -> Option<Seq<char>> {
    if !usable_rate(rate) {
        Some("invalid sample rate "@ + shown + ""@)
    } else {
        match first_fault(tokens, values, 0) {
            Some(e) => Some(e),
            None => if tokens.len() == 0 {
                Some("no coefficients found in .vdc"@)
            } else if tokens.len() % 5 != 0 {
                Some(
                    "coefficient count "@ + crate::text::decimal(tokens.len())
                        + " is not a multiple of 5 (b0,b1,b2,a1,a2 per section)"@,
                )
            } else {
                None
            },
        }
    }
}

/// The filter that starts at a place of the coefficients. Files hold the last two with the other
/// sign.
pub open spec fn section_at(values: Seq<Result<u64, Seq<char>>>, at: int) -> Seq<u64> {
    seq![
        values[at]->Ok_0,
        values[at + 1]->Ok_0,
        values[at + 2]->Ok_0,
        crate::float_bits::negated64(values[at + 3]->Ok_0),
        crate::float_bits::negated64(values[at + 4]->Ok_0),
    ]
}

/// The correction of coefficients that have no fault.
pub open spec fn is_curve(c: VdcCurve, rate: u64, values: Seq<Result<u64, Seq<char>>>) -> bool {
    &&& c.sample_rate == rate
    &&& c.biquads@.len() == values.len() / 5
    &&& forall|k: int|
        0 <= k < c.biquads@.len() ==> (#[trigger] c.biquads@[k])@ == section_at(values, 5 * k)
}

/// The correction that a line gives, from its rate and what its coefficients evaluate to.
pub fn read_curve(
    rate: u64,
    shown: &str,
    tokens: &Vec<String>,
    values: &Vec<Result<u64, String>>,
) -> (r: Result<VdcCurve, String>)
    requires
        tokens@.len() == values@.len(),
    ensures
        match r {
            Ok(c) => curve_fault(
                rate,
                shown@,
                crate::text::texts(tokens@),
                numbers_said(values@),
            ) is None && is_curve(c, rate, numbers_said(values@)),
            Err(e) => curve_fault(
                rate,
                shown@,
                crate::text::texts(tokens@),
                numbers_said(values@),
            ) == Some(e@),
        },
{
    let ghost ts = crate::text::texts(tokens@);
    let ghost vs = numbers_said(values@);
    if !(rate > 0 && rate < INFINITY_BITS_64) {
        return Err(join3("invalid sample rate ", shown, ""));
    }
    let mut coeffs: Vec<u64> = Vec::new();
    let mut i: usize = 0;
    while i < tokens.len()
        invariant
            i <= tokens@.len(),
            tokens@.len() == values@.len(),
            ts == crate::text::texts(tokens@),
            vs == numbers_said(values@),
            first_fault(ts, vs, i as int) == first_fault(ts, vs, 0),
            coeffs@.len() == i,
            forall|k: int|
                0 <= k < i ==> (#[trigger] vs[k]) is Ok && coeffs@[k] == vs[k]->Ok_0,
            usable_rate(rate),
        decreases tokens@.len() - i,
    {
        assert(ts[i as int] == tokens@[i as int]@);
        assert(vs[i as int] == number_said(values@[i as int]));
        match &values[i] {
            Ok(v) => {
                if !is_finite64(*v) {
                    return Err(join3("non-finite coefficient '", tokens[i].as_str(), "'"));
                }
                coeffs.push(*v);
            },
            Err(e) => {
                let mut text = join3("bad coefficient '", tokens[i].as_str(), "': ");
                text.append(e.as_str());
                return Err(text);
            },
        }
        i += 1;
    }
    assert(ts.len() == tokens@.len());
    if coeffs.len() == 0 {
        return Err("no coefficients found in .vdc".to_owned());
    }
    if coeffs.len() % 5 != 0 {
        return Err(
            join3(
                "coefficient count ",
                decimal_text(coeffs.len() as u64).as_str(),
                " is not a multiple of 5 (b0,b1,b2,a1,a2 per section)",
            ),
        );
    }
    let n: usize = coeffs.len() / 5;
    let mut biquads: Vec<[u64; 5]> = Vec::new();
    let mut k: usize = 0;
    while k < n
        invariant
            k <= n,
            5 * n == coeffs@.len(),
            coeffs@.len() == vs.len(),
            coeffs@.len() <= usize::MAX,
            forall|j: int| 0 <= j < coeffs@.len() ==> #[trigger] coeffs@[j] == vs[j]->Ok_0,
            biquads@.len() == k,
            forall|j: int|
                0 <= j < k ==> (#[trigger] biquads@[j])@ == section_at(vs, 5 * j),
        decreases n - k,
    {
        let at: usize = 5 * k;
        let section: [u64; 5] = [
            coeffs[at],
            coeffs[at + 1],
            coeffs[at + 2],
            negate64(coeffs[at + 3]),
            negate64(coeffs[at + 4]),
        ];
        assert(section@ =~= section_at(vs, 5 * k));
        biquads.push(section);
        k += 1;
    }
    Ok(VdcCurve { sample_rate: rate, biquads })
}

/// The function that reads numbers takes every text.
pub open spec fn readable<P: Fn(&str) -> Result<u64, String>>(parse: P) -> bool {
    forall|s: &str| #[trigger] call_requires(parse, (s,))
}

/// The function `parse` always reads what `p` says.
pub open spec fn reads<P: Fn(&str) -> Result<u64, String>>(
    parse: P,
    p: spec_fn(Seq<char>) -> Result<u64, Seq<char>>,
) -> bool {
    forall|s: &str, v: Result<u64, String>| #[trigger]
        call_ensures(parse, (s,), v) ==> number_said(v) == p(s@)
}

/// The function that shows numbers takes every number.
pub open spec fn showable<S: Fn(u64) -> String>(show: S) -> bool {
    forall|v: u64| #[trigger] call_requires(show, (v,))
}

/// The function `show` always shows what `q` says.
pub open spec fn shows<S: Fn(u64) -> String>(show: S, q: spec_fn(u64) -> Seq<char>) -> bool {
    forall|v: u64, s: String| #[trigger] call_ensures(show, (v,), s) ==> s@ == q(v)
}

/// What the rates of lines evaluate to.
pub open spec fn rates_of(
    lines: Seq<(Seq<char>, Seq<char>)>,
    p: spec_fn(Seq<char>) -> Result<u64, Seq<char>>,
) -> Seq<Option<u64>> {
    lines.map_values(
        |l: (Seq<char>, Seq<char>)|
            match p(l.0) {
                Ok(v) => Some(v),
                Err(_) => None,
            },
    )
}

/// The text of a file gives this result: the line to take, and what its coefficients say.
pub open spec fn is_result(
    input: Seq<char>,
    r: Result<VdcCurve, String>,
    p: spec_fn(Seq<char>) -> Result<u64, Seq<char>>,
    q: spec_fn(u64) -> Seq<char>,
) -> bool {
    let lines = lines_from(input, 0);
    let rates = rates_of(lines, p);
    match chosen(rates, rates.len() as int) {
        None => r matches Err(e) && e@ == "no SR_<rate> line found in .vdc"@,
        Some(at) => {
            let rate = rates[at]->0;
            let tokens = tokens_from(lines[at].1, 0);
            let values = tokens.map_values(|t: Seq<char>| p(t));
            match curve_fault(rate, q(rate), tokens, values) {
                Some(e) => r matches Err(why) && why@ == e,
                None => r matches Ok(c) && is_curve(c, rate, values),
            }
        },
    }
}

/// Reads a `.vdc` correction: the line of the most welcome rate, or why there is no correction.
pub fn parse_vdc<P: Fn(&str) -> Result<u64, String>, S: Fn(u64) -> String>(
    input: &str,
    parse: &P,
    show: &S,
) -> (r: Result<VdcCurve, String>)
    requires
        readable(*parse),
        showable(*show),
    ensures
        forall|
            p: spec_fn(Seq<char>) -> Result<u64, Seq<char>>,
            q: spec_fn(u64) -> Seq<char>,
        | #[trigger]
            reads(*parse, p) && #[trigger] shows(*show, q) ==> is_result(input@, r, p, q),
{
    let lines: Vec<VdcLine> = vdc_lines(input);
    let ghost ls = line_views(lines@);
    let mut rates: Vec<Option<u64>> = Vec::new();
    while rates.len() < lines.len()
        invariant
            rates@.len() <= lines@.len(),
            ls == line_views(lines@),
            readable(*parse),
            forall|p: spec_fn(Seq<char>) -> Result<u64, Seq<char>>, i: int|
                0 <= i < rates@.len() && #[trigger] reads(*parse, p) ==> #[trigger] rates@[i]
                    == rates_of(ls, p)[i],
        decreases lines@.len() - rates@.len(),
    {
        let line: &VdcLine = &lines[rates.len()];
        assert(ls[rates@.len() as int] == (line.rate@, line.body@));
        rates.push(
            match parse(line.rate.as_str()) {
                Ok(v) => Some(v),
                Err(_) => None,
            },
        );
    }
    assert forall|p: spec_fn(Seq<char>) -> Result<u64, Seq<char>>| #[trigger]
        reads(*parse, p) implies rates@ == rates_of(ls, p) by {
        assert(rates@ =~= rates_of(ls, p));
    }
    let at: usize = match choose_line(&rates) {
        Some(at) => at,
        None => {
            return Err("no SR_<rate> line found in .vdc".to_owned());
        },
    };
    let rate: u64 = match rates[at] {
        Some(v) => v,
        None => {
            return Err("no SR_<rate> line found in .vdc".to_owned());
        },
    };
    assert(ls[at as int] == (lines@[at as int].rate@, lines@[at as int].body@));
    let tokens: Vec<String> = vdc_tokens(lines[at].body.as_str());
    let ghost ts = crate::text::texts(tokens@);
    let mut values: Vec<Result<u64, String>> = Vec::new();
    while values.len() < tokens.len()
        invariant
            values@.len() <= tokens@.len(),
            ts == crate::text::texts(tokens@),
            readable(*parse),
            forall|p: spec_fn(Seq<char>) -> Result<u64, Seq<char>>, i: int|
                0 <= i < values@.len() && #[trigger] reads(*parse, p) ==> number_said(
                    #[trigger] values@[i],
                ) == p(ts[i]),
        decreases tokens@.len() - values@.len(),
    {
        let token: &String = &tokens[values.len()];
        assert(ts[values@.len() as int] == token@);
        values.push(parse(token.as_str()));
    }
    assert forall|p: spec_fn(Seq<char>) -> Result<u64, Seq<char>>| #[trigger]
        reads(*parse, p) implies numbers_said(values@) == ts.map_values(
        |t: Seq<char>| p(t),
    ) by {
        assert(numbers_said(values@) =~= ts.map_values(|t: Seq<char>| p(t)));
    }
    let shown: String = show(rate);
    read_curve(rate, shown.as_str(), &tokens, &values)
}

/// One period and two periods back on the unit circle: `e^(-jw)` and `e^(-2jw)`.
#[derive(Debug, Clone, Copy, PartialEq, Eq, Structural)]
pub struct Periods {
    pub once_re: u64,
    pub once_im: u64,
    pub twice_re: u64,
    pub twice_im: u64,
}

/// The periods of a frequency at a sample rate.
pub open spec fn periods_of(rate: u64, freq: u64, g: spec_fn(Wide, u64, u64) -> u64) -> Periods {
    let w = g(Wide::Div, g(Wide::Mul, TURN_WIDE, freq), rate);
    let w2 = g(Wide::Mul, TWO_WIDE, w);
    Periods {
        once_re: g(Wide::Cos, w, 0),
        once_im: crate::float_bits::negated64(g(Wide::Sin, w, 0)),
        twice_re: g(Wide::Cos, w2, 0),
        twice_im: crate::float_bits::negated64(g(Wide::Sin, w2, 0)),
    }
}

/// A complex number.
#[derive(Debug, Clone, Copy, PartialEq, Eq, Structural)]
pub struct Complex {
    pub re: u64,
    pub im: u64,
}

/// `c0 + c1 * e^(-jw) + c2 * e^(-2jw)`.
pub open spec fn polynomial(
    c0: u64,
    c1: u64,
    c2: u64,
    z: Periods,
    g: spec_fn(Wide, u64, u64) -> u64,
) -> Complex {
    Complex {
        re: g(
            Wide::Add,
            g(Wide::Add, c0, g(Wide::Mul, c1, z.once_re)),
            g(Wide::Mul, c2, z.twice_re),
        ),
        im: g(Wide::Add, g(Wide::Mul, c1, z.once_im), g(Wide::Mul, c2, z.twice_im)),
    }
}

fn polynomial_at<F: Fn(Wide, u64, u64) -> u64>(
    c0: u64,
    c1: u64,
    c2: u64,
    z: Periods,
    f: &F,
) -> (r: Complex)
    requires
        crate::wide::callable(*f),
    ensures
        forall|g: spec_fn(Wide, u64, u64) -> u64| #[trigger]
            crate::wide::computes(*f, g) ==> r == polynomial(c0, c1, c2, z, g),
{
    let once_re: u64 = apply(f, Wide::Mul, c1, z.once_re);
    let twice_re: u64 = apply(f, Wide::Mul, c2, z.twice_re);
    let start: u64 = apply(f, Wide::Add, c0, once_re);
    let once_im: u64 = apply(f, Wide::Mul, c1, z.once_im);
    let twice_im: u64 = apply(f, Wide::Mul, c2, z.twice_im);
    Complex {
        re: apply(f, Wide::Add, start, twice_re),
        im: apply(f, Wide::Add, once_im, twice_im),
    }
}

/// The bits of the smallest difference from one: a denominator below this is taken as zero.
pub const POLE_MARGIN: u64 = 0x3cb0_0000_0000_0000;

/// `x * y` and `x / y`, in parts: `a * b - c * d` and `a * b + c * d`.
pub open spec fn cross_sum(
    op: Wide,
    a: u64,
    b: u64,
    c: u64,
    d: u64,
    g: spec_fn(Wide, u64, u64) -> u64,
) -> u64 {
    g(op, g(Wide::Mul, a, b), g(Wide::Mul, c, d))
}

fn cross<F: Fn(Wide, u64, u64) -> u64>(op: Wide, a: u64, b: u64, c: u64, d: u64, f: &F) -> (r: u64)
    requires
        crate::wide::callable(*f),
    ensures
        forall|g: spec_fn(Wide, u64, u64) -> u64| #[trigger]
            crate::wide::computes(*f, g) ==> r == cross_sum(op, a, b, c, d, g),
{
    let ab: u64 = apply(f, Wide::Mul, a, b);
    let cd: u64 = apply(f, Wide::Mul, c, d);
    apply(f, op, ab, cd)
}

/// The response behind one more section, or nothing where the section has a pole.
pub open spec fn through_section(
    h: Complex,
    c: Seq<u64>,
    z: Periods,
    g: spec_fn(Wide, u64, u64) -> u64,
) -> Option<Complex> {
    let num = polynomial(c[0], c[1], c[2], z, g);
    let den = polynomial(ONE_WIDE, c[3], c[4], z, g);
    let size = cross_sum(Wide::Add, den.re, den.re, den.im, den.im, g);
    let re = cross_sum(Wide::Sub, h.re, num.re, h.im, num.im, g);
    let im = cross_sum(Wide::Add, h.re, num.im, h.im, num.re, g);
    if crate::wide::less64(size, POLE_MARGIN) {
        None
    } else {
        Some(
            Complex {
                re: g(Wide::Div, cross_sum(Wide::Add, re, den.re, im, den.im, g), size),
                im: g(Wide::Div, cross_sum(Wide::Sub, im, den.re, re, den.im, g), size),
            },
        )
    }
}

/// The response of the first `n` sections.
pub open spec fn response_of(
    sections: Seq<[u64; 5]>,
    n: nat,
    z: Periods,
    g: spec_fn(Wide, u64, u64) -> u64,
) -> Option<Complex>
    decreases n,
{
    if n == 0 {
        Some(Complex { re: ONE_WIDE, im: 0 })
    } else {
        match response_of(sections, (n - 1) as nat, z, g) {
            None => None,
            Some(h) => through_section(h, sections[n - 1]@, z, g),
        }
    }
}

/// The bits of twenty, and those of 1e-12: below that a level is not followed.
pub const TWENTY_WIDE: u64 = 0x4034_0000_0000_0000;

pub const LEAST_LEVEL: u64 = 0x3d71_9799_812d_ea11;

/// The response of sections at a frequency in dB; negative infinity at a pole.
pub open spec fn response_db(
    sections: Seq<[u64; 5]>,
    rate: u64,
    freq: u64,
    g: spec_fn(Wide, u64, u64) -> u64,
) -> u64 {
    match response_of(sections, sections.len(), periods_of(rate, freq, g), g) {
        None => (INFINITY_BITS_64 + SIGN_BIT_64) as u64,
        Some(h) => {
            let size = g(Wide::Sqrt, cross_sum(Wide::Add, h.re, h.re, h.im, h.im, g), 0);
            g(
                Wide::Mul,
                TWENTY_WIDE,
                g(Wide::Log10, crate::wide::larger64(size, LEAST_LEVEL), 0),
            )
        },
    }
}

/// The response of sections at a frequency in dB.
pub fn cascade_response_db<F: Fn(Wide, u64, u64) -> u64>(
    biquads: &Vec<[u64; 5]>,
    sample_rate: u64,
    freq_hz: u64,
    f: &F,
) -> (r: u64)
    requires
        crate::wide::callable(*f),
    ensures
        forall|g: spec_fn(Wide, u64, u64) -> u64| #[trigger]
            crate::wide::computes(*f, g) ==> r == response_db(biquads@, sample_rate, freq_hz, g),
{
    let turn: u64 = apply(f, Wide::Mul, TURN_WIDE, freq_hz);
    let w: u64 = apply(f, Wide::Div, turn, sample_rate);
    let w2: u64 = apply(f, Wide::Mul, TWO_WIDE, w);
    let (sin, sin2): (u64, u64) = (apply(f, Wide::Sin, w, 0), apply(f, Wide::Sin, w2, 0));
    let z: Periods = Periods {
        once_re: apply(f, Wide::Cos, w, 0),
        once_im: negate64(sin),
        twice_re: apply(f, Wide::Cos, w2, 0),
        twice_im: negate64(sin2),
    };
    let mut h: Complex = Complex { re: ONE_WIDE, im: 0 };
    let mut i: usize = 0;
    while i < biquads.len()
        invariant
            i <= biquads@.len(),
            crate::wide::callable(*f),
            forall|g: spec_fn(Wide, u64, u64) -> u64| #[trigger]
                crate::wide::computes(*f, g) ==> z == periods_of(sample_rate, freq_hz, g)
                    && response_of(biquads@, i as nat, z, g) == Some(h),
        decreases biquads@.len() - i,
    {
        let c: [u64; 5] = biquads[i];
        let num: Complex = polynomial_at(c[0], c[1], c[2], z, f);
        let den: Complex = polynomial_at(ONE_WIDE, c[3], c[4], z, f);
        let size: u64 = cross(Wide::Add, den.re, den.re, den.im, den.im, f);
        if less_than64(size, POLE_MARGIN) {
            assert forall|g: spec_fn(Wide, u64, u64) -> u64| #[trigger]
                crate::wide::computes(*f, g) implies response_of(
                biquads@,
                biquads@.len(),
                z,
                g,
            ) is None by {
                assert(through_section(h, biquads@[i as int]@, z, g) is None);
                lemma_a_pole_stays(biquads@, (i + 1) as nat, biquads@.len(), z, g);
            }
            return INFINITY_BITS_64 + SIGN_BIT_64;
        }
        let re: u64 = cross(Wide::Sub, h.re, num.re, h.im, num.im, f);
        let im: u64 = cross(Wide::Add, h.re, num.im, h.im, num.re, f);
        let over: u64 = cross(Wide::Add, re, den.re, im, den.im, f);
        let across: u64 = cross(Wide::Sub, im, den.re, re, den.im, f);
        h =
        Complex { re: apply(f, Wide::Div, over, size), im: apply(f, Wide::Div, across, size) };
        i += 1;
    }
    let squared: u64 = cross(Wide::Add, h.re, h.re, h.im, h.im, f);
    let size: u64 = apply(f, Wide::Sqrt, squared, 0);
    let level: u64 = apply(f, Wide::Log10, larger_of64(size, LEAST_LEVEL), 0);
    apply(f, Wide::Mul, TWENTY_WIDE, level)
}

proof fn lemma_a_pole_stays(
    sections: Seq<[u64; 5]>,
    n: nat,
    m: nat,
    z: Periods,
    g: spec_fn(Wide, u64, u64) -> u64,
)
    requires
        n <= m,
        response_of(sections, n, z, g) is None,
    ensures
        response_of(sections, m, z, g) is None,
    decreases m - n,
{
    if n < m {
        lemma_a_pole_stays(sections, n, (m - 1) as nat, z, g);
    }
}

/// The bits of -120 dB, which stands for a response that is not finite.
pub const DEEP_BITS: u32 = 0xc2f0_0000;

/// The gain of a correction at a frequency: a response that is not finite is deeply attenuated.
pub open spec fn band_of_curve(
    c: VdcCurve,
    center: u32,
    g: spec_fn(Wide, u64, u64) -> u64,
) -> u32 {
    let db = response_db(c.biquads@, c.sample_rate, g(Wide::Widen, center as u64, 0), g);
    if crate::float_bits::finite64(db) {
        crate::wide::narrowed(db, g)
    } else {
        DEEP_BITS
    }
}

/// The gains of a correction at the bands of the equalizer.
pub fn vdc_to_iso_bands<F: Fn(Wide, u64, u64) -> u64>(curve: &VdcCurve, f: &F) -> (r: [u32; 31])
    requires
        crate::wide::callable(*f),
    ensures
        forall|g: spec_fn(Wide, u64, u64) -> u64| #[trigger]
            crate::wide::computes(*f, g) ==> r@ == Seq::new(
                31,
                |i: int| band_of_curve(*curve, crate::presets::center_bits()[i], g),
            ),
{
    let centers: [u32; 31] = iso_bits();
    let mut out: [u32; 31] = [0u32; 31];
    let mut i: usize = 0;
    while i < 31
        invariant
            i <= 31,
            centers@ == crate::presets::center_bits(),
            crate::wide::callable(*f),
            forall|g: spec_fn(Wide, u64, u64) -> u64, k: int|
                0 <= k < i && #[trigger] crate::wide::computes(*f, g) ==> #[trigger] out@[k]
                    == band_of_curve(*curve, centers@[k], g),
        decreases 31 - i,
    {
        let freq: u64 = apply(f, Wide::Widen, centers[i] as u64, 0);
        let db: u64 = cascade_response_db(&curve.biquads, curve.sample_rate, freq, f);
        out[i] =
        if is_finite64(db) {
            narrow(f, db)
        } else {
            DEEP_BITS
        };
        i += 1;
    }
    assert forall|g: spec_fn(Wide, u64, u64) -> u64| #[trigger]
        crate::wide::computes(*f, g) implies out@ == Seq::new(
        31,
        |i: int| band_of_curve(*curve, crate::presets::center_bits()[i], g),
    ) by {
        assert(out@ =~= Seq::new(
            31,
            |i: int| band_of_curve(*curve, crate::presets::center_bits()[i], g),
        ));
    }
    out
}

} // verus!
