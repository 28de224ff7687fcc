//! Separation of a track into stems: which models are run on which parts of the track, how the
//! parts are faded into each other, and under which key the result is kept.

use vstd::prelude::*;
use crate::text::{chars_of, decimal_text, join3};

verus! {

/// How many stems there are.
pub const STEM_COUNT: usize = 4;

/// The sample rate of the stems.
pub const STEM_SR: u32 = 44_100;

/// Neighbouring parts overlap by this fraction of a part.
pub const OVERLAP_DIV: usize = 4;

/// The length of a part where the model does not say another.
pub const DEFAULT_SEGMENT: usize = 343_980;

/// Failures of the separation.
#[derive(Debug, Clone, PartialEq, Eq)]
pub enum StemError {
    /// The models are not installed.
    Unavailable,
    /// The engine failed.
    Engine(String),
    /// A file could not be read or written.
    Io(String),
    /// The separation was given up; this is no failure.
    Aborted,
}

/// What a failure is called.
pub open spec fn stem_error_text(e: StemError) -> Seq<char> {
    match e {
        StemError::Unavailable =>
            "the stem models aren't installed yet (run scripts/get_stems_model.sh)"@,
        StemError::Engine(why) => "stem engine error: "@ + why@ + ""@,
        StemError::Io(why) => "io error: "@ + why@ + ""@,
        StemError::Aborted => "stem separation aborted"@,
    }
}

impl StemError {
    /// The failure in words.
    pub fn text(&self) -> (r: String)
        ensures
            r@ == stem_error_text(*self),
    {
        match self {
            StemError::Unavailable => "the stem models aren't installed yet (run scripts/get_stems_model.sh)".to_owned(),
            StemError::Engine(why) => join3("stem engine error: ", why.as_str(), ""),
            StemError::Io(why) => join3("io error: ", why.as_str(), ""),
            StemError::Aborted => "stem separation aborted".to_owned(),
        }
    }
}

/// The stems, by the slots in which they are played.
pub open spec fn stem_table() -> Seq<Seq<char>> {
    seq!["vocals"@, "drums"@, "bass"@, "other"@]
}

/// The names of the stems, by the slots in which they are played.
pub fn stem_names() -> (r: Vec<String>)
    ensures
        crate::text::texts(r@) == stem_table(),
{
    let mut out: Vec<String> = Vec::new();
    out.push("vocals".to_owned());
    out.push("drums".to_owned());
    out.push("bass".to_owned());
    out.push("other".to_owned());
    assert(crate::text::texts(out@) =~= stem_table());
    out
}

/// A model: its file, the row of its output that it is trained for, and the slot of that stem.
#[derive(Debug, Clone, PartialEq, Eq)]
pub struct StemModel {
    pub file: String,
    pub row: usize,
    pub slot: usize,
}

/// The content of a [`StemModel`].
pub struct StemModelView {
    pub file: Seq<char>,
    pub row: int,
    pub slot: int,
}

impl View for StemModel {
    type V = StemModelView;

    open spec fn view(&self) -> StemModelView {
        StemModelView { file: self.file@, row: self.row as int, slot: self.slot as int }
    }
}

/// The models. Their rows are drums, bass, other, vocals.
pub open spec fn model_table() -> Seq<StemModelView> {
    seq![
        StemModelView { file: "htdemucs_ft_vocals.onnx"@, row: 3, slot: 0 },
        StemModelView { file: "htdemucs_ft_drums.onnx"@, row: 0, slot: 1 },
        StemModelView { file: "htdemucs_ft_bass.onnx"@, row: 1, slot: 2 },
        StemModelView { file: "htdemucs_ft_other.onnx"@, row: 2, slot: 3 },
    ]
}

/// The models, one for each stem.
pub fn models() -> (r: Vec<StemModel>)
    ensures
        r@.map_values(|m: StemModel| m@) == model_table(),
{
    let mut out: Vec<StemModel> = Vec::new();
    out.push(StemModel { file: "htdemucs_ft_vocals.onnx".to_owned(), row: 3, slot: 0 });
    out.push(StemModel { file: "htdemucs_ft_drums.onnx".to_owned(), row: 0, slot: 1 });
    out.push(StemModel { file: "htdemucs_ft_bass.onnx".to_owned(), row: 1, slot: 2 });
    out.push(StemModel { file: "htdemucs_ft_other.onnx".to_owned(), row: 2, slot: 3 });
    assert(out@.map_values(|m: StemModel| m@) =~= model_table());
    out
}

/// Every slot is filled by one model, and every row is used by one.
pub proof fn law_models_fill_all_slots(n: int)
    requires
        0 <= n < STEM_COUNT,
    ensures
        model_table().len() == STEM_COUNT,
        model_table()[n].slot == n,
        exists|i: int| 0 <= i < STEM_COUNT && (#[trigger] model_table()[i]).row == n,
        forall|i: int, j: int|
            0 <= i < j < STEM_COUNT ==> (#[trigger] model_table()[i]).row != (
            #[trigger] model_table()[j]).row,
{
    let i = (n + 1) % 4;
    assert(model_table()[i].row == n);
}

/// How a model is talked to.
#[derive(Debug, Clone, PartialEq, Eq)]
pub struct Contract {
    pub input: String,
    pub output: String,
    pub segment: usize,
}

/// How a model is talked to, from what its description says; what it leaves out has a default. A
/// part has at least one sample.
pub fn contract_of(input: Option<String>, output: Option<String>, segment: Option<usize>) -> (r:
    Contract)
    ensures
        r.input@ == (match input {
            Some(s) => s@,
            None => "mix"@,
        }),
        r.output@ == (match output {
            Some(s) => s@,
            None => "stems"@,
        }),
        r.segment == (match segment {
            Some(n) => if n == 0 {
                1
            } else {
                n as int
            },
            None => DEFAULT_SEGMENT as int,
        }),
{
    Contract {
        input: match input {
            Some(s) => s,
            None => "mix".to_owned(),
        },
        output: match output {
            Some(s) => s,
            None => "stems".to_owned(),
        },
        segment: match segment {
            Some(n) => if n == 0 {
                1
            } else {
                n
            },
            None => DEFAULT_SEGMENT,
        },
    }
}

/// What is to be done for a track.
#[derive(Debug, Clone, Copy, PartialEq, Eq, Structural)]
pub enum Start {
    /// The stems are kept from an earlier run.
    UseCache,
    /// The models have to be run.
    Run,
}

/// What is to be done for a track of so many frames. A run that was given up does nothing, kept
/// stems need no models, and an empty track cannot be separated.
pub fn start(cancelled: bool, cached: bool, available: bool, frames: usize) -> (r: Result<
    Start,
    StemError,
>)
    ensures
        match r {
            Err(StemError::Aborted) => cancelled,
            Ok(Start::UseCache) => !cancelled && cached,
            Err(StemError::Unavailable) => !cancelled && !cached && !available,
            Err(StemError::Engine(why)) => !cancelled && !cached && available && frames == 0 && why@
                == "empty input"@,
            Ok(Start::Run) => !cancelled && !cached && available && frames > 0,
            Err(StemError::Io(_)) => false,
        },
{
    if cancelled {
        return Err(StemError::Aborted);
    }
    if cached {
        return Ok(Start::UseCache);
    }
    if !available {
        return Err(StemError::Unavailable);
    }
    if frames == 0 {
        return Err(StemError::Engine("empty input".to_owned()));
    }
    Ok(Start::Run)
}

/// From one part to the next.
pub open spec fn stride_of(segment: int) -> int {
    if segment - segment / 4 < 1 {
        1
    } else {
        segment - segment / 4
    }
}

/// A part of a track: where it begins and how many frames of the track it holds.
#[derive(Debug, Clone, Copy, PartialEq, Eq, Structural)]
pub struct Part {
    pub offset: usize,
    pub take: usize,
}

/// The part with a number: parts follow each other at the stride, and the last ones are cut off at
/// the end of the track.
pub open spec fn is_part(p: Part, i: int, frames: int, segment: int) -> bool {
    &&& p.offset == i * stride_of(segment)
    &&& p.offset < frames
    &&& p.take == (if segment < frames - p.offset {
        segment
    } else {
        frames - p.offset
    })
}

/// The parts of a track of so many frames: all that begin before its end.
pub fn parts(frames: usize, segment: usize) -> (r: Vec<Part>)
    requires
        frames <= isize::MAX,
        segment <= isize::MAX,
    ensures
        forall|i: int|
            0 <= i < r@.len() ==> is_part(#[trigger] r@[i], i, frames as int, segment as int),
        r@.len() * stride_of(segment as int) >= frames,
{
    let step: usize = segment - segment / OVERLAP_DIV;
    let stride: usize = if step < 1 {
        1
    } else {
        step
    };
    let mut out: Vec<Part> = Vec::new();
    let mut offset: usize = 0;
    assert(0 * stride == 0) by (nonlinear_arith);
    while offset < frames
        invariant
            stride == stride_of(segment as int),
            1 <= stride <= isize::MAX,
            frames <= isize::MAX,
            offset == out@.len() * stride,
            forall|i: int|
                0 <= i < out@.len() ==> is_part(
                    #[trigger] out@[i],
                    i,
                    frames as int,
                    segment as int,
                ),
        decreases frames + stride - offset,
    {
        let left: usize = frames - offset;
        let take: usize = if segment < left {
            segment
        } else {
            left
        };
        let ghost n = out@.len();
        out.push(Part { offset, take });
        assert((n + 1) * stride == n * stride + stride) by (nonlinear_arith);
        offset = offset + stride;
    }
    out
}

/// Every frame of the track lies in a part, so that every sample of the stems is written.
pub proof fn law_parts_cover_the_track(
    list: Seq<Part>,
    frames: int,
    segment: int,
    frame: int,
)
    requires
        segment >= 1,
        0 <= frame < frames,
        forall|i: int| 0 <= i < list.len() ==> is_part(#[trigger] list[i], i, frames, segment),
        list.len() * stride_of(segment) >= frames,
    ensures
        exists|i: int|
            0 <= i < list.len() && (#[trigger] list[i]).offset <= frame < list[i].offset
                + list[i].take,
{
    let stride = stride_of(segment);
    assert(1 <= stride <= segment);
    let i = frame / stride;
    assert(i * stride <= frame < i * stride + stride) by (nonlinear_arith)
        requires
            i == frame / stride,
            stride >= 1,
            frame >= 0,
    ;
    assert(0 <= i) by (nonlinear_arith)
        requires
            i == frame / stride,
            stride >= 1,
            frame >= 0,
    ;
    assert(i < list.len()) by (nonlinear_arith)
        requires
            i * stride <= frame,
            frame < frames,
            list.len() * stride >= frames,
            stride >= 1,
    ;
    assert(is_part(list[i], i, frames, segment));
}

/// A weight, as a fraction.
#[derive(Debug, Clone, Copy, PartialEq, Eq, Structural)]
pub struct Weight {
    pub num: usize,
    pub den: usize,
}

/// Over how many samples a part is faded in and out.
pub open spec fn transition_of(segment: int) -> int {
    if segment / 4 < 1 {
        1
    } else {
        segment / 4
    }
}

/// The weight of the sample that is so far from the nearer end of its part: rising along the
/// transition, and one behind it. A transition of one sample is none.
pub open spec fn weight_at(segment: int, edge: int) -> Weight {
    let t = transition_of(segment);
    if edge < t && t > 1 {
        Weight { num: edge as usize, den: (t - 1) as usize }
    } else {
        Weight { num: 1, den: 1 }
    }
}

/// How far a sample is from the nearer end of its part.
pub open spec fn edge_of(segment: int, i: int) -> int {
    if i <= segment - 1 - i {
        i
    } else {
        segment - 1 - i
    }
}

/// The weights of the samples of a part, by which overlapping parts are faded into each other.
pub fn transition_window(segment: usize) -> (r: Vec<Weight>)
    ensures
        r@.len() == segment,
        forall|i: int|
            0 <= i < segment ==> #[trigger] r@[i] == weight_at(
                segment as int,
                edge_of(segment as int, i),
            ),
{
    let quarter: usize = segment / OVERLAP_DIV;
    let transition: usize = if quarter < 1 {
        1
    } else {
        quarter
    };
    let mut out: Vec<Weight> = Vec::new();
    let mut i: usize = 0;
    while i < segment
        invariant
            i <= segment,
            out@.len() == i,
            transition == transition_of(segment as int),
            forall|k: int|
                0 <= k < i ==> #[trigger] out@[k] == weight_at(
                    segment as int,
                    edge_of(segment as int, k),
                ),
        decreases segment - i,
    {
        let back: usize = segment - 1 - i;
        let edge: usize = if i <= back {
            i
        } else {
            back
        };
        if edge < transition && transition > 1 {
            out.push(Weight { num: edge, den: transition - 1 });
        } else {
            out.push(Weight { num: 1, den: 1 });
        }
        i += 1;
    }
    out
}

/// The weights lie between zero and one and are the same from both ends; a transition of more than
/// one sample begins at zero and ends at one.
pub proof fn law_window_is_a_trapezoid(segment: int, i: int)
    requires
        0 <= i < segment <= usize::MAX,
    ensures
        0 <= weight_at(segment, edge_of(segment, i)).num <= weight_at(
            segment,
            edge_of(segment, i),
        ).den,
        weight_at(segment, edge_of(segment, i)).den >= 1,
        edge_of(segment, i) == edge_of(segment, segment - 1 - i),
        transition_of(segment) > 1 ==> weight_at(segment, edge_of(segment, 0)).num == 0,
        edge_of(segment, i) >= transition_of(segment) - 1 ==> weight_at(
            segment,
            edge_of(segment, i),
        ).num == weight_at(segment, edge_of(segment, i)).den,
{
}

/// The two channels of an interleaved track, as bits of samples; an odd sample at the end is left
/// out.
pub fn planar(mix: &Vec<u32>) -> (r: (Vec<u32>, Vec<u32>))
    ensures
        r.0@.len() == mix@.len() / 2,
        r.1@.len() == mix@.len() / 2,
        forall|f: int| 0 <= f < mix@.len() / 2 ==> #[trigger] r.0@[f] == mix@[2 * f],
        forall|f: int| 0 <= f < mix@.len() / 2 ==> #[trigger] r.1@[f] == mix@[2 * f + 1],
{
    let samples: usize = mix.len();
    let frames: usize = samples / 2;
    let mut left: Vec<u32> = Vec::new();
    let mut right: Vec<u32> = Vec::new();
    let mut f: usize = 0;
    while f < frames
        invariant
            samples == mix@.len(),
            f <= frames == samples / 2,
            left@.len() == f,
            right@.len() == f,
            forall|k: int| 0 <= k < f ==> #[trigger] left@[k] == mix@[2 * k],
            forall|k: int| 0 <= k < f ==> #[trigger] right@[k] == mix@[2 * k + 1],
        decreases frames - f,
    {
        left.push(mix[2 * f]);
        right.push(mix[2 * f + 1]);
        f += 1;
    }
    (left, right)
}

/// An interleaved track of two channels.
pub fn interleave(left: &Vec<u32>, right: &Vec<u32>) -> (r: Vec<u32>)
    requires
        left@.len() == right@.len(),
    ensures
        r@.len() == 2 * left@.len(),
        forall|f: int| 0 <= f < left@.len() ==> r@[2 * f] == #[trigger] left@[f],
        forall|f: int| 0 <= f < left@.len() ==> r@[2 * f + 1] == #[trigger] right@[f],
{
    let mut out: Vec<u32> = Vec::new();
    let mut f: usize = 0;
    while f < left.len()
        invariant
            f <= left@.len(),
            left@.len() == right@.len(),
            out@.len() == 2 * f,
            forall|k: int| 0 <= k < f ==> out@[2 * k] == #[trigger] left@[k],
            forall|k: int| 0 <= k < f ==> out@[2 * k + 1] == #[trigger] right@[k],
        decreases left@.len() - f,
    {
        out.push(left[f]);
        out.push(right[f]);
        f += 1;
    }
    out
}

/// Taking a track apart into its channels and putting them together gives it back.
pub proof fn law_channels_give_back_the_track(
    mix: Seq<u32>,
    left: Seq<u32>,
    right: Seq<u32>,
    again: Seq<u32>,
)
    requires
        mix.len() % 2 == 0,
        left.len() == mix.len() / 2,
        right.len() == mix.len() / 2,
        forall|f: int| 0 <= f < mix.len() / 2 ==> #[trigger] left[f] == mix[2 * f],
        forall|f: int| 0 <= f < mix.len() / 2 ==> #[trigger] right[f] == mix[2 * f + 1],
        again.len() == 2 * left.len(),
        forall|f: int| 0 <= f < left.len() ==> again[2 * f] == #[trigger] left[f],
        forall|f: int| 0 <= f < left.len() ==> again[2 * f + 1] == #[trigger] right[f],
    ensures
        again == mix,
{
    assert forall|i: int| 0 <= i < mix.len() implies again[i] == mix[i] by {
        let f = i / 2;
        assert(0 <= f < left.len());
        if i % 2 == 0 {
            assert(i == 2 * f);
            assert(left[f] == mix[2 * f]);
        } else {
            assert(i == 2 * f + 1);
            assert(right[f] == mix[2 * f + 1]);
        }
    }
    assert(again =~= mix);
}

/// What a model gets for a part: the left channel, then the right one, each filled up with silence
/// to the length of a part.
pub fn model_input(left: &Vec<u32>, right: &Vec<u32>, part: Part, segment: usize) -> (r: Vec<u32>)
    requires
        left@.len() == right@.len(),
        part.offset + part.take <= left@.len(),
        part.take <= segment,
        2 * segment <= usize::MAX,
    ensures
        r@.len() == 2 * segment,
        forall|i: int|
            0 <= i < segment ==> #[trigger] r@[i] == (if i < part.take {
                left@[part.offset + i]
            } else {
                0
            }),
        forall|i: int|
            0 <= i < segment ==> #[trigger] r@[segment + i] == (if i < part.take {
                right@[part.offset + i]
            } else {
                0
            }),
{
    let mut out: Vec<u32> = Vec::new();
    push_plane(&mut out, left, part, segment);
    assert forall|i: int| 0 <= i < segment implies #[trigger] out@[i] == (if i < part.take {
        left@[part.offset + i]
    } else {
        0
    }) by {
        assert(out@[0 + i] == out@[i]);
    }
    push_plane(&mut out, right, part, segment);
    out
}

fn push_plane(out: &mut Vec<u32>, plane: &Vec<u32>, part: Part, segment: usize)
    requires
        part.offset + part.take <= plane@.len(),
        part.take <= segment,
        old(out)@.len() + segment <= usize::MAX,
    ensures
        final(out)@.len() == old(out)@.len() + segment,
        forall|i: int| 0 <= i < old(out)@.len() ==> #[trigger] final(out)@[i] == old(out)@[i],
        forall|i: int|
            0 <= i < segment ==> #[trigger] final(out)@[old(out)@.len() + i] == (if i < part.take {
                plane@[part.offset + i]
            } else {
                0
            }),
{
    let ghost before = out@;
    let frames: usize = plane.len();
    let mut i: usize = 0;
    while i < segment
        invariant
            i <= segment,
            part.offset + part.take <= frames == plane@.len(),
            part.take <= segment,
            before == old(out)@,
            out@.len() == before.len() + i,
            forall|k: int| 0 <= k < before.len() ==> #[trigger] out@[k] == before[k],
            forall|k: int|
                0 <= k < i ==> #[trigger] out@[before.len() + k] == (if k < part.take {
                    plane@[part.offset + k]
                } else {
                    0
                }),
        decreases segment - i,
    {
        if i < part.take {
            out.push(plane[part.offset + i]);
        } else {
            out.push(0);
        }
        i += 1;
    }
}

/// A character that is kept in a key.
pub open spec fn key_char(c: char) -> bool {
    crate::text::ascii_letter(c) || crate::text::digit(c)
}

/// The first 48 characters of a name, with a low line in place of every other character than a
/// letter or a digit.
pub open spec fn sanitized(name: Seq<char>) -> Seq<char> {
    let n: int = if name.len() < 48 {
        name.len() as int
    } else {
        48
    };
    name.take(n).map_values(
        |c: char|
            if key_char(c) {
                c
            } else {
                '_'
            },
    )
}

/// The key of a file: its name, its size and when it was changed.
pub open spec fn key_of(name: Seq<char>, size: nat, mtime: nat) -> Seq<char> {
    sanitized(name) + "-"@ + crate::text::decimal(size) + "-"@ + crate::text::decimal(mtime)
}

/// The key under which the stems of a file are kept. A file whose name cannot be had is called
/// `track`.
pub fn cache_key(stem: Option<&str>, size: u64, mtime: u64) -> (r: String)
    ensures
        r@ == key_of(
            (match stem {
                Some(name) => name@,
                None => "track"@,
            }),
            size as nat,
            mtime as nat,
        ),
{
    let name = match stem {
        Some(name) => name,
        None => "track",
    };
    let v = chars_of(name);
    let n: usize = if v.len() < 48 {
        v.len()
    } else {
        48
    };
    let mut out = String::new();
    let mut i: usize = 0;
    while i < n
        invariant
            v@ == name@,
            n <= v@.len(),
            n == (if name@.len() < 48 {
                name@.len()
            } else {
                48
            }),
            i <= n,
            out@ == sanitized(name@).take(i as int),
        decreases n - i,
    {
        let c: char = v[i];
        let keep: bool = (c >= 'a' && c <= 'z') || (c >= 'A' && c <= 'Z') || (c >= '0' && c <= '9');
        assert(sanitized(name@).take(i + 1) =~= sanitized(name@).take(i as int).push(
            sanitized(name@)[i as int],
        ));
        if keep {
            out.push(c);
        } else {
            out.push('_');
        }
        i += 1;
    }
    assert(sanitized(name@).take(n as int) =~= sanitized(name@));
    out.append("-");
    out.append(decimal_text(size).as_str());
    out.append("-");
    out.append(decimal_text(mtime).as_str());
    out
}

/// A character that may stand in a key.
pub open spec fn file_char(c: char) -> bool {
    key_char(c) || c == '_' || c == '-'
}

proof fn lemma_digits(n: nat, i: int)
    requires
        0 <= i < crate::text::decimal(n).len(),
    ensures
        crate::text::digit(crate::text::decimal(n)[i]),
{
    crate::text::lemma_decimal_reads_back(n);
}

/// A key can be the name of a directory: it holds only letters, digits, low lines and hyphens.
pub proof fn law_keys_are_file_names(name: Seq<char>, size: nat, mtime: nat, i: int)
    requires
        0 <= i < key_of(name, size, mtime).len(),
    ensures
        file_char(key_of(name, size, mtime)[i]),
{
    reveal_strlit("-");
    let a = sanitized(name);
    let b = crate::text::decimal(size);
    let c = crate::text::decimal(mtime);
    let k = key_of(name, size, mtime);
    if i < a.len() {
        assert(k[i] == a[i]);
    } else if i == a.len() {
        assert(k[i] == '-');
    } else if i < a.len() + 1 + b.len() {
        assert(k[i] == b[i - a.len() - 1]);
        lemma_digits(size, i - a.len() - 1);
    } else if i == a.len() + 1 + b.len() {
        assert(k[i] == '-');
    } else {
        assert(k[i] == c[i - a.len() - b.len() - 2]);
        lemma_digits(mtime, i - a.len() - b.len() - 2);
    }
}

/// A file that was changed gets another key: with the same name, keys are the same only where size
/// and time are.
pub proof fn law_changed_files_get_new_keys(
    name: Seq<char>,
    size: nat,
    mtime: nat,
    other_size: nat,
    other_mtime: nat,
)
    requires
        key_of(name, size, mtime) == key_of(name, other_size, other_mtime),
    ensures
        size == other_size,
        mtime == other_mtime,
{
    reveal_strlit("-");
    let a = sanitized(name);
    let b = crate::text::decimal(size);
    let c = crate::text::decimal(mtime);
    let d = crate::text::decimal(other_size);
    let e = crate::text::decimal(other_mtime);
    let k = key_of(name, size, mtime);
    let n: int = a.len() as int + 1;
    crate::text::lemma_decimal_reads_back(size);
    crate::text::lemma_decimal_reads_back(mtime);
    crate::text::lemma_decimal_reads_back(other_size);
    crate::text::lemma_decimal_reads_back(other_mtime);
    assert(k[n + b.len()] == '-');
    assert(k[n + d.len()] == '-');
    if b.len() < d.len() {
        assert(k[n + b.len()] == d[b.len() as int]);
        lemma_digits(other_size, b.len() as int);
    }
    if d.len() < b.len() {
        assert(k[n + d.len()] == b[d.len() as int]);
        lemma_digits(size, d.len() as int);
    }
    assert(b =~= k.subrange(n, n + b.len()));
    assert(d =~= k.subrange(n, n + b.len()));
    assert(c =~= k.skip(n + b.len() + 1));
    assert(e =~= k.skip(n + b.len() + 1));
}

} // verus!
