//! The built-in equalizer presets, as a few points each between which the bands are interpolated.

use vstd::prelude::*;
use crate::dsp::arith::{apply, Calc};
use crate::float_bits::negate;
use crate::text::join3;
use crate::types::EqPreset;

verus! {

/// The curve of a built-in preset: its points as frequencies in Hz and gains in tenths of a dB.
#[derive(Debug, Clone, PartialEq, Eq)]
pub struct BuiltinPreset {
    pub id: String,
    pub name: String,
    pub anchors: Vec<(u32, i32)>,
}

/// The content of a [`BuiltinPreset`].
pub struct BuiltinPresetView {
    pub id: Seq<char>,
    pub name: Seq<char>,
    pub anchors: Seq<(u32, i32)>,
}

impl View for BuiltinPreset {
    type V = BuiltinPresetView;

    open spec fn view(&self) -> BuiltinPresetView {
        BuiltinPresetView { id: self.id@, name: self.name@, anchors: self.anchors@ }
    }
}

/// A row of the table: ids of built-in presets have a prefix of their own.
pub open spec fn row(id: Seq<char>, name: Seq<char>, anchors: Seq<(u32, i32)>) -> BuiltinPresetView {
    BuiltinPresetView { id: "builtin:"@ + id + ""@, name, anchors }
}

/// The curves of the built-in presets in the order in which they are shown.
pub open spec fn builtin_table() -> Seq<BuiltinPresetView> {
    seq![
        row("flat"@, "Flat"@, Seq::<(u32, i32)>::empty()),
        row("bass-boost"@, "Bass Boost"@, seq![(20u32, 70i32), (60u32, 60i32), (150u32, 40i32), (300u32, 15i32), (500u32, 0i32)]),
        row("bass-reducer"@, "Bass Reducer"@, seq![(20u32, -60i32), (80u32, -40i32), (200u32, -20i32), (400u32, 0i32)]),
        row("treble-boost"@, "Treble Boost"@, seq![(2000u32, 0i32), (4000u32, 20i32), (8000u32, 50i32), (16000u32, 60i32)]),
        row("vocal"@, "Vocal"@, seq![(20u32, -20i32), (200u32, -10i32), (1000u32, 30i32), (3000u32, 40i32), (6000u32, 10i32), (20000u32, -10i32)]),
        row("rock"@, "Rock"@, seq![(20u32, 50i32), (60u32, 40i32), (200u32, 10i32), (800u32, -15i32), (3000u32, 10i32), (8000u32, 40i32), (16000u32, 50i32)]),
        row("pop"@, "Pop"@, seq![(20u32, -10i32), (100u32, 0i32), (400u32, 20i32), (1500u32, 30i32), (4000u32, 15i32), (10000u32, -5i32)]),
        row("electronic"@, "Electronic"@, seq![(20u32, 60i32), (60u32, 50i32), (250u32, 10i32), (1000u32, 0i32), (3000u32, 10i32), (8000u32, 30i32), (16000u32, 50i32)]),
        row("jazz"@, "Jazz"@, seq![(20u32, 30i32), (100u32, 20i32), (500u32, 0i32), (2000u32, 10i32), (6000u32, 20i32), (16000u32, 30i32)]),
        row("classical"@, "Classical"@, seq![(20u32, 40i32), (80u32, 30i32), (400u32, 0i32), (4000u32, 0i32), (8000u32, 20i32), (16000u32, 30i32)]),
        row("loudness"@, "Loudness"@, seq![(20u32, 70i32), (60u32, 60i32), (200u32, 20i32), (1000u32, -10i32), (3000u32, 10i32), (8000u32, 50i32), (16000u32, 70i32)]),
        row("podcast"@, "Podcast"@, seq![(20u32, -60i32), (100u32, -20i32), (300u32, 10i32), (2000u32, 30i32), (5000u32, 20i32), (10000u32, -20i32)]),
    ]
}

fn preset(id: &str, name: &str, anchors: Vec<(u32, i32)>) -> (r: BuiltinPreset)
    ensures
        r@ == row(id@, name@, anchors@),
{
    BuiltinPreset { id: join3("builtin:", id, ""), name: name.to_owned(), anchors }
}

/// The curves of the built-in presets in the order in which they are shown.
pub fn builtin_curves() -> (r: Vec<BuiltinPreset>)
    ensures
        r@.map_values(|p: BuiltinPreset| p@) == builtin_table(),
{
    let mut out: Vec<BuiltinPreset> = Vec::new();
    let anchors: Vec<(u32, i32)> = Vec::new();
    assert(anchors@ =~= Seq::<(u32, i32)>::empty());
    out.push(preset("flat", "Flat", anchors));
    let anchors: Vec<(u32, i32)> = vec![(20, 70), (60, 60), (150, 40), (300, 15), (500, 0)];
    assert(anchors@ =~= seq![(20u32, 70i32), (60u32, 60i32), (150u32, 40i32), (300u32, 15i32), (500u32, 0i32)]);
    out.push(preset("bass-boost", "Bass Boost", anchors));
    let anchors: Vec<(u32, i32)> = vec![(20, -60), (80, -40), (200, -20), (400, 0)];
    assert(anchors@ =~= seq![(20u32, -60i32), (80u32, -40i32), (200u32, -20i32), (400u32, 0i32)]);
    out.push(preset("bass-reducer", "Bass Reducer", anchors));
    let anchors: Vec<(u32, i32)> = vec![(2000, 0), (4000, 20), (8000, 50), (16000, 60)];
    assert(anchors@ =~= seq![(2000u32, 0i32), (4000u32, 20i32), (8000u32, 50i32), (16000u32, 60i32)]);
    out.push(preset("treble-boost", "Treble Boost", anchors));
    let anchors: Vec<(u32, i32)> = vec![(20, -20), (200, -10), (1000, 30), (3000, 40), (6000, 10), (20000, -10)];
    assert(anchors@ =~= seq![(20u32, -20i32), (200u32, -10i32), (1000u32, 30i32), (3000u32, 40i32), (6000u32, 10i32), (20000u32, -10i32)]);
    out.push(preset("vocal", "Vocal", anchors));
    let anchors: Vec<(u32, i32)> = vec![(20, 50), (60, 40), (200, 10), (800, -15), (3000, 10), (8000, 40), (16000, 50)];
    assert(anchors@ =~= seq![(20u32, 50i32), (60u32, 40i32), (200u32, 10i32), (800u32, -15i32), (3000u32, 10i32), (8000u32, 40i32), (16000u32, 50i32)]);
    out.push(preset("rock", "Rock", anchors));
    let anchors: Vec<(u32, i32)> = vec![(20, -10), (100, 0), (400, 20), (1500, 30), (4000, 15), (10000, -5)];
    assert(anchors@ =~= seq![(20u32, -10i32), (100u32, 0i32), (400u32, 20i32), (1500u32, 30i32), (4000u32, 15i32), (10000u32, -5i32)]);
    out.push(preset("pop", "Pop", anchors));
    let anchors: Vec<(u32, i32)> = vec![(20, 60), (60, 50), (250, 10), (1000, 0), (3000, 10), (8000, 30), (16000, 50)];
    assert(anchors@ =~= seq![(20u32, 60i32), (60u32, 50i32), (250u32, 10i32), (1000u32, 0i32), (3000u32, 10i32), (8000u32, 30i32), (16000u32, 50i32)]);
    out.push(preset("electronic", "Electronic", anchors));
    let anchors: Vec<(u32, i32)> = vec![(20, 30), (100, 20), (500, 0), (2000, 10), (6000, 20), (16000, 30)];
    assert(anchors@ =~= seq![(20u32, 30i32), (100u32, 20i32), (500u32, 0i32), (2000u32, 10i32), (6000u32, 20i32), (16000u32, 30i32)]);
    out.push(preset("jazz", "Jazz", anchors));
    let anchors: Vec<(u32, i32)> = vec![(20, 40), (80, 30), (400, 0), (4000, 0), (8000, 20), (16000, 30)];
    assert(anchors@ =~= seq![(20u32, 40i32), (80u32, 30i32), (400u32, 0i32), (4000u32, 0i32), (8000u32, 20i32), (16000u32, 30i32)]);
    out.push(preset("classical", "Classical", anchors));
    let anchors: Vec<(u32, i32)> = vec![(20, 70), (60, 60), (200, 20), (1000, -10), (3000, 10), (8000, 50), (16000, 70)];
    assert(anchors@ =~= seq![(20u32, 70i32), (60u32, 60i32), (200u32, 20i32), (1000u32, -10i32), (3000u32, 10i32), (8000u32, 50i32), (16000u32, 70i32)]);
    out.push(preset("loudness", "Loudness", anchors));
    let anchors: Vec<(u32, i32)> = vec![(20, -60), (100, -20), (300, 10), (2000, 30), (5000, 20), (10000, -20)];
    assert(anchors@ =~= seq![(20u32, -60i32), (100u32, -20i32), (300u32, 10i32), (2000u32, 30i32), (5000u32, 20i32), (10000u32, -20i32)]);
    out.push(preset("podcast", "Podcast", anchors));
    assert(out@.map_values(|p: BuiltinPreset| p@) =~= builtin_table());
    out
}

/// The center frequencies of the bands of the equalizer, in tenths of a Hz.
pub open spec fn centers() -> Seq<u32> {
    seq![
        200u32, 250, 315, 400, 500, 630, 800, 1000, 1250, 1600, 2000, 2500, 3150, 4000, 5000, 6300,
        8000, 10000, 12500, 16000, 20000, 25000, 31500, 40000, 50000, 63000, 80000, 100000, 125000,
        160000, 200000,
    ]
}

/// The center frequencies of the bands of the equalizer, in tenths of a Hz.
pub fn iso_centers() -> (r: [u32; 31])
    ensures
        r@ == centers(),
{
    let r: [u32; 31] = [
        200, 250, 315, 400, 500, 630, 800, 1000, 1250, 1600, 2000, 2500, 3150, 4000, 5000, 6300,
        8000, 10000, 12500, 16000, 20000, 25000, 31500, 40000, 50000, 63000, 80000, 100000, 125000,
        160000, 200000,
    ];
    assert(r@ =~= centers());
    r
}

/// The center frequencies of the bands of the equalizer in Hz, as bits.
pub open spec fn center_bits() -> Seq<u32> {
    seq![
        0x41a0_0000u32, 0x41c8_0000, 0x41fc_0000, 0x4220_0000, 0x4248_0000, 0x427c_0000,
        0x42a0_0000, 0x42c8_0000, 0x42fa_0000, 0x4320_0000, 0x4348_0000, 0x437a_0000,
        0x439d_8000, 0x43c8_0000, 0x43fa_0000, 0x441d_8000, 0x4448_0000, 0x447a_0000,
        0x449c_4000, 0x44c8_0000, 0x44fa_0000, 0x451c_4000, 0x4544_e000, 0x457a_0000,
        0x459c_4000, 0x45c4_e000, 0x45fa_0000, 0x461c_4000, 0x4643_5000, 0x467a_0000,
        0x469c_4000,
    ]
}

/// The center frequencies of the bands of the equalizer in Hz, as bits.
pub fn iso_bits() -> (r: [u32; 31])
    ensures
        r@ == center_bits(),
        center_bits().len() == 31,
{
    let r: [u32; 31] = [
        0x41a0_0000, 0x41c8_0000, 0x41fc_0000, 0x4220_0000, 0x4248_0000, 0x427c_0000,
        0x42a0_0000, 0x42c8_0000, 0x42fa_0000, 0x4320_0000, 0x4348_0000, 0x437a_0000,
        0x439d_8000, 0x43c8_0000, 0x43fa_0000, 0x441d_8000, 0x4448_0000, 0x447a_0000,
        0x449c_4000, 0x44c8_0000, 0x44fa_0000, 0x451c_4000, 0x4544_e000, 0x457a_0000,
        0x459c_4000, 0x45c4_e000, 0x45fa_0000, 0x461c_4000, 0x4643_5000, 0x467a_0000,
        0x469c_4000,
    ];
    assert(r@ =~= center_bits());
    r
}

/// The bands rise in frequency.
pub proof fn law_centers_rise(i: int, j: int)
    requires
        0 <= i < j < 31,
    ensures
        centers().len() == 31,
        centers()[i] < centers()[j],
{
}

/// The length of the last part of an id, and its first letter.
spec fn id_mark(p: int) -> (int, char) {
    if p == 0 {
        (4, 'f')
    } else if p == 1 {
        (10, 'b')
    } else if p == 2 {
        (12, 'b')
    } else if p == 3 {
        (12, 't')
    } else if p == 4 {
        (5, 'v')
    } else if p == 5 {
        (4, 'r')
    } else if p == 6 {
        (3, 'p')
    } else if p == 7 {
        (10, 'e')
    } else if p == 8 {
        (4, 'j')
    } else if p == 9 {
        (9, 'c')
    } else if p == 10 {
        (8, 'l')
    } else {
        (7, 'p')
    }
}

proof fn lemma_id(p: int)
    requires
        0 <= p < builtin_table().len(),
    ensures
        "builtin:"@.len() == 8,
        builtin_table()[p].id.len() == 8 + id_mark(p).0,
        builtin_table()[p].id[8] == id_mark(p).1,
        builtin_table()[p].id.subrange(0, 8) == "builtin:"@,
{
    let t = builtin_table();
    reveal_strlit("builtin:");
    reveal_strlit("");
    if p == 0 {
        reveal_strlit("flat");
        assert(t[0].id == "builtin:"@ + "flat"@ + ""@);
    }
    if p == 1 {
        reveal_strlit("bass-boost");
        assert(t[1].id == "builtin:"@ + "bass-boost"@ + ""@);
    }
    if p == 2 {
        reveal_strlit("bass-reducer");
        assert(t[2].id == "builtin:"@ + "bass-reducer"@ + ""@);
    }
    if p == 3 {
        reveal_strlit("treble-boost");
        assert(t[3].id == "builtin:"@ + "treble-boost"@ + ""@);
    }
    if p == 4 {
        reveal_strlit("vocal");
        assert(t[4].id == "builtin:"@ + "vocal"@ + ""@);
    }
    if p == 5 {
        reveal_strlit("rock");
        assert(t[5].id == "builtin:"@ + "rock"@ + ""@);
    }
    if p == 6 {
        reveal_strlit("pop");
        assert(t[6].id == "builtin:"@ + "pop"@ + ""@);
    }
    if p == 7 {
        reveal_strlit("electronic");
        assert(t[7].id == "builtin:"@ + "electronic"@ + ""@);
    }
    if p == 8 {
        reveal_strlit("jazz");
        assert(t[8].id == "builtin:"@ + "jazz"@ + ""@);
    }
    if p == 9 {
        reveal_strlit("classical");
        assert(t[9].id == "builtin:"@ + "classical"@ + ""@);
    }
    if p == 10 {
        reveal_strlit("loudness");
        assert(t[10].id == "builtin:"@ + "loudness"@ + ""@);
    }
    if p == 11 {
        reveal_strlit("podcast");
        assert(t[11].id == "builtin:"@ + "podcast"@ + ""@);
    }
    assert(t[p].id.subrange(0, 8) =~= "builtin:"@);
}

/// There are twelve built-in presets; every id begins with `builtin:`, and the first is the flat one.
pub proof fn law_builtin_ids(p: int)
    requires
        0 <= p < builtin_table().len(),
    ensures
        builtin_table().len() == 12,
        "builtin:"@.is_prefix_of(builtin_table()[p].id),
        builtin_table()[0].id == "builtin:flat"@,
{
    lemma_id(p);
    reveal_strlit("builtin:");
    reveal_strlit("flat");
    reveal_strlit("");
    reveal_strlit("builtin:flat");
    assert(builtin_table()[0].id == "builtin:"@ + "flat"@ + ""@);
    assert(builtin_table()[0].id =~= "builtin:flat"@);
}

/// No two built-in presets have the same id.
pub proof fn law_builtin_ids_differ(p: int, q: int)
    requires
        0 <= p < q < builtin_table().len(),
    ensures
        builtin_table()[p].id != builtin_table()[q].id,
{
    lemma_id(p);
    lemma_id(q);
}

/// The points of every built-in curve rise in frequency, within what can be heard, and no gain
/// falls below -6 dB or exceeds 7 dB.
pub proof fn law_builtin_curves_are_sane(p: int, i: int, j: int)
    requires
        0 <= p < builtin_table().len(),
        0 <= i < j < builtin_table()[p].anchors.len(),
    ensures
        20 <= builtin_table()[p].anchors[i].0 < builtin_table()[p].anchors[j].0 <= 20000,
        -60 <= builtin_table()[p].anchors[i].1 <= 70,
        -60 <= builtin_table()[p].anchors[j].1 <= 70,
{
    let t = builtin_table();
    if p == 0 {
        assert(t[0].anchors == Seq::<(u32, i32)>::empty());
    }
    if p == 1 {
        assert(t[1].anchors == seq![(20u32, 70i32), (60u32, 60i32), (150u32, 40i32), (300u32, 15i32), (500u32, 0i32)]);
    }
    if p == 2 {
        assert(t[2].anchors == seq![(20u32, -60i32), (80u32, -40i32), (200u32, -20i32), (400u32, 0i32)]);
    }
    if p == 3 {
        assert(t[3].anchors == seq![(2000u32, 0i32), (4000u32, 20i32), (8000u32, 50i32), (16000u32, 60i32)]);
    }
    if p == 4 {
        assert(t[4].anchors == seq![(20u32, -20i32), (200u32, -10i32), (1000u32, 30i32), (3000u32, 40i32), (6000u32, 10i32), (20000u32, -10i32)]);
    }
    if p == 5 {
        assert(t[5].anchors == seq![(20u32, 50i32), (60u32, 40i32), (200u32, 10i32), (800u32, -15i32), (3000u32, 10i32), (8000u32, 40i32), (16000u32, 50i32)]);
    }
    if p == 6 {
        assert(t[6].anchors == seq![(20u32, -10i32), (100u32, 0i32), (400u32, 20i32), (1500u32, 30i32), (4000u32, 15i32), (10000u32, -5i32)]);
    }
    if p == 7 {
        assert(t[7].anchors == seq![(20u32, 60i32), (60u32, 50i32), (250u32, 10i32), (1000u32, 0i32), (3000u32, 10i32), (8000u32, 30i32), (16000u32, 50i32)]);
    }
    if p == 8 {
        assert(t[8].anchors == seq![(20u32, 30i32), (100u32, 20i32), (500u32, 0i32), (2000u32, 10i32), (6000u32, 20i32), (16000u32, 30i32)]);
    }
    if p == 9 {
        assert(t[9].anchors == seq![(20u32, 40i32), (80u32, 30i32), (400u32, 0i32), (4000u32, 0i32), (8000u32, 20i32), (16000u32, 30i32)]);
    }
    if p == 10 {
        assert(t[10].anchors == seq![(20u32, 70i32), (60u32, 60i32), (200u32, 20i32), (1000u32, -10i32), (3000u32, 10i32), (8000u32, 50i32), (16000u32, 70i32)]);
    }
    if p == 11 {
        assert(t[11].anchors == seq![(20u32, -60i32), (100u32, -20i32), (300u32, 10i32), (2000u32, 30i32), (5000u32, 20i32), (10000u32, -20i32)]);
    }
}

/// How the gain of a band follows from the points of a curve.
#[derive(Debug, Clone, Copy, PartialEq, Eq, Structural)]
pub enum BandPlace {
    /// The gain is given, in tenths of a dB.
    Gain(i32),
    /// The gain lies between that of a point and that of the next one.
    Between(usize),
}

/// The first point from `from` on that is at or above a frequency in tenths of a Hz.
pub open spec fn reached(anchors: Seq<(u32, i32)>, center: u32, from: int) -> int
    decreases anchors.len() - from,
{
    if !(0 <= from < anchors.len()) || center <= anchors[from].0 * 10 {
        from
    } else {
        reached(anchors, center, from + 1)
    }
}

/// How the gain of a band follows: without points it is zero, beyond the ends that of the end.
pub open spec fn place_of_band(anchors: Seq<(u32, i32)>, center: u32) -> BandPlace {
    let p = reached(anchors, center, 0);
    if anchors.len() == 0 {
        BandPlace::Gain(0)
    } else if p == 0 {
        BandPlace::Gain(anchors[0].1)
    } else if p == anchors.len() {
        BandPlace::Gain(anchors.last().1)
    } else {
        BandPlace::Between((p - 1) as usize)
    }
}

/// How the gain of a band follows from the points of a curve.
pub fn band_place(anchors: &Vec<(u32, i32)>, center: u32) -> (r: BandPlace)
    ensures
        r == place_of_band(anchors@, center),
{
    let n: usize = anchors.len();
    if n == 0 {
        return BandPlace::Gain(0);
    }
    let mut i: usize = 0;
    while i < n
        invariant_except_break
            reached(anchors@, center, 0) == reached(anchors@, center, i as int),
        invariant
            i <= n == anchors@.len(),
        ensures
            reached(anchors@, center, 0) == i,
        decreases n - i,
    {
        if center as u64 <= anchors[i].0 as u64 * 10 {
            break;
        }
        i += 1;
    }
    if i == 0 {
        BandPlace::Gain(anchors[0].1)
    } else if i == n {
        BandPlace::Gain(anchors[n - 1].1)
    } else {
        BandPlace::Between(i - 1)
    }
}

proof fn lemma_reached(anchors: Seq<(u32, i32)>, center: u32, from: int)
    requires
        0 <= from <= anchors.len(),
    ensures
        from <= reached(anchors, center, from) <= anchors.len(),
        forall|k: int|
            from <= k < reached(anchors, center, from) ==> (#[trigger] anchors[k]).0 * 10 < center,
        reached(anchors, center, from) < anchors.len() ==> center <= anchors[reached(
            anchors,
            center,
            from,
        )].0 * 10,
    decreases anchors.len() - from,
{
    if from < anchors.len() && center > anchors[from].0 * 10 {
        lemma_reached(anchors, center, from + 1);
    }
}

/// A band between two points lies above the first and not above the second.
pub proof fn law_bands_lie_between_their_points(anchors: Seq<(u32, i32)>, center: u32)
    requires
        anchors.len() <= usize::MAX,
    ensures
        place_of_band(anchors, center) matches BandPlace::Between(j) ==> j + 1 < anchors.len()
            && anchors[j as int].0 * 10 < center <= anchors[j + 1].0 * 10,
{
    lemma_reached(anchors, center, 0);
}

proof fn lemma_anchor_count(p: int)
    requires
        0 <= p < builtin_table().len(),
    ensures
        p == 0 ==> builtin_table()[p].anchors.len() == 0,
        p != 0 ==> 4 <= builtin_table()[p].anchors.len() <= 7,
{
}

/// Every band of a built-in preset has a gain of -6 to 7 dB, or lies between two points of its curve
/// that both have such a gain.
pub proof fn law_builtin_bands_are_bounded(p: int, band: int)
    requires
        0 <= p < builtin_table().len(),
        0 <= band < 31,
    ensures
        match place_of_band(builtin_table()[p].anchors, centers()[band]) {
            BandPlace::Gain(t) => -60 <= t <= 70,
            BandPlace::Between(j) => {
                let anchors = builtin_table()[p].anchors;
                &&& j + 1 < anchors.len()
                &&& anchors[j as int].0 * 10 < centers()[band] <= anchors[j + 1].0 * 10
                &&& -60 <= anchors[j as int].1 <= 70
                &&& -60 <= anchors[j + 1].1 <= 70
            },
        },
{
    let anchors = builtin_table()[p].anchors;
    lemma_anchor_count(p);
    lemma_reached(anchors, centers()[band], 0);
    let at = reached(anchors, centers()[band], 0);
    if anchors.len() > 0 {
        law_builtin_curves_are_sane(p, 0, anchors.len() - 1);
        if 0 < at < anchors.len() {
            law_builtin_curves_are_sane(p, at - 1, at);
        }
    }
}

/// The bits of ten.
pub const TEN_BITS: u32 = 0x4120_0000;

/// The number of some tenths.
pub open spec fn tenths_number(t: i32, g: spec_fn(Calc, u32, u32) -> u32) -> u32 {
    if t < 0 {
        crate::float_bits::negated(g(Calc::Div, g(Calc::Whole, (-t) as u32, 0), TEN_BITS))
    } else {
        g(Calc::Div, g(Calc::Whole, t as u32, 0), TEN_BITS)
    }
}

fn number_of_tenths<F: Fn(Calc, u32, u32) -> u32>(t: i32, f: &F) -> (r: u32)
    requires
        crate::dsp::arith::callable(*f),
    ensures
        forall|g: spec_fn(Calc, u32, u32) -> u32| #[trigger]
            crate::dsp::arith::computes(*f, g) ==> r == tenths_number(t, g),
{
    let size: u32 = if t < 0 {
        (-(t as i64)) as u32
    } else {
        t as u32
    };
    let whole: u32 = apply(f, Calc::Whole, size, 0);
    let number: u32 = apply(f, Calc::Div, whole, TEN_BITS);
    if t < 0 {
        negate(number)
    } else {
        number
    }
}

/// The gain of a band between two points: on a line over the logarithm of the frequency.
pub open spec fn anchored_gain(
    a: (u32, i32),
    b: (u32, i32),
    center: u32,
    g: spec_fn(Calc, u32, u32) -> u32,
) -> u32 {
    let from = g(Calc::Log10, g(Calc::Whole, a.0, 0), 0);
    let to = g(Calc::Log10, g(Calc::Whole, b.0, 0), 0);
    let share = g(
        Calc::Div,
        g(Calc::Sub, g(Calc::Log10, center, 0), from),
        g(Calc::Sub, to, from),
    );
    let low = tenths_number(a.1, g);
    g(Calc::Add, low, g(Calc::Mul, g(Calc::Sub, tenths_number(b.1, g), low), share))
}

/// The gain of a band before it is rounded.
pub open spec fn band_gain(
    anchors: Seq<(u32, i32)>,
    band: int,
    g: spec_fn(Calc, u32, u32) -> u32,
) -> u32 {
    match place_of_band(anchors, centers()[band]) {
        BandPlace::Gain(t) => tenths_number(t, g),
        BandPlace::Between(j) => anchored_gain(
            anchors[j as int],
            anchors[j + 1],
            center_bits()[band],
            g,
        ),
    }
}

/// The gains of the bands, rounded to tenths of a dB.
pub open spec fn curve_gains(
    anchors: Seq<(u32, i32)>,
    g: spec_fn(Calc, u32, u32) -> u32,
) -> Seq<u32> {
    Seq::new(
        31,
        |i: int|
            g(
                Calc::Div,
                g(Calc::Round, g(Calc::Mul, band_gain(anchors, i, g), TEN_BITS), 0),
                TEN_BITS,
            ),
    )
}

/// The gains that the points of a preset give the bands.
pub fn curve<F: Fn(Calc, u32, u32) -> u32>(anchors: &Vec<(u32, i32)>, f: &F) -> (r: [u32; 31])
    requires
        crate::dsp::arith::callable(*f),
    ensures
        forall|g: spec_fn(Calc, u32, u32) -> u32| #[trigger]
            crate::dsp::arith::computes(*f, g) ==> r@ == curve_gains(anchors@, g),
{
    let tenths: [u32; 31] = iso_centers();
    let bits: [u32; 31] = iso_bits();
    let n: usize = anchors.len();
    let mut out: [u32; 31] = [0u32; 31];
    let mut i: usize = 0;
    while i < 31
        invariant
            i <= 31,
            n == anchors@.len(),
            tenths@ == centers(),
            bits@ == center_bits(),
            crate::dsp::arith::callable(*f),
            forall|g: spec_fn(Calc, u32, u32) -> u32, k: int|
                0 <= k < i && #[trigger] crate::dsp::arith::computes(*f, g) ==> #[trigger] out@[k]
                    == curve_gains(anchors@, g)[k],
        decreases 31 - i,
    {
        let gain: u32 = match band_place(anchors, tenths[i]) {
            BandPlace::Gain(t) => number_of_tenths(t, f),
            BandPlace::Between(j) => {
                proof {
                    law_bands_lie_between_their_points(anchors@, tenths@[i as int]);
                }
                let (a, b): ((u32, i32), (u32, i32)) = (anchors[j], anchors[j + 1]);
                let a_hz: u32 = apply(f, Calc::Whole, a.0, 0);
                let from: u32 = apply(f, Calc::Log10, a_hz, 0);
                let b_hz: u32 = apply(f, Calc::Whole, b.0, 0);
                let to: u32 = apply(f, Calc::Log10, b_hz, 0);
                let at: u32 = apply(f, Calc::Log10, bits[i], 0);
                let way: u32 = apply(f, Calc::Sub, at, from);
                let span: u32 = apply(f, Calc::Sub, to, from);
                let share: u32 = apply(f, Calc::Div, way, span);
                let low: u32 = number_of_tenths(a.1, f);
                let high: u32 = number_of_tenths(b.1, f);
                let rise: u32 = apply(f, Calc::Sub, high, low);
                let part: u32 = apply(f, Calc::Mul, rise, share);
                apply(f, Calc::Add, low, part)
            },
        };
        let scaled: u32 = apply(f, Calc::Mul, gain, TEN_BITS);
        let rounded: u32 = apply(f, Calc::Round, scaled, 0);
        out[i] = apply(f, Calc::Div, rounded, TEN_BITS);
        i += 1;
    }
    assert forall|g: spec_fn(Calc, u32, u32) -> u32| #[trigger]
        crate::dsp::arith::computes(*f, g) implies out@ == curve_gains(anchors@, g) by {
        assert(out@ =~= curve_gains(anchors@, g));
    }
    out
}

/// What a built-in preset holds: it is marked as one, changes nothing before the bands, and its
/// bands follow its curve.
pub open spec fn follows_curve<F: Fn(Calc, u32, u32) -> u32>(
    p: EqPreset,
    c: BuiltinPresetView,
    f: F,
) -> bool {
    &&& p.id@ == c.id
    &&& p.name@ == c.name
    &&& p.builtin
    &&& p.pre_gain == 0
    &&& forall|g: spec_fn(Calc, u32, u32) -> u32| #[trigger]
        crate::dsp::arith::computes(f, g) ==> p.bands@ == curve_gains(c.anchors, g)
}

/// The built-in presets in the order in which they are shown.
pub fn builtins<F: Fn(Calc, u32, u32) -> u32>(f: &F) -> (r: Vec<EqPreset>)
    requires
        crate::dsp::arith::callable(*f),
    ensures
        r@.len() == builtin_table().len(),
        forall|i: int|
            0 <= i < r@.len() ==> follows_curve(#[trigger] r@[i], builtin_table()[i], *f),
{
    let curves: Vec<BuiltinPreset> = builtin_curves();
    let ghost all = curves@;
    assert forall|k: int| 0 <= k < all.len() implies (#[trigger] all[k])@ == builtin_table()[k] by {
        assert(all.map_values(|p: BuiltinPreset| p@)[k] == all[k]@);
    }
    let n: usize = curves.len();
    let mut out: Vec<EqPreset> = Vec::new();
    let mut i: usize = 0;
    while i < n
        invariant
            i <= n == curves@.len() == builtin_table().len(),
            all == curves@,
            forall|k: int| 0 <= k < all.len() ==> (#[trigger] all[k])@ == builtin_table()[k],
            out@.len() == i,
            crate::dsp::arith::callable(*f),
            forall|k: int|
                0 <= k < i ==> follows_curve(#[trigger] out@[k], builtin_table()[k], *f),
        decreases n - i,
    {
        let c: &BuiltinPreset = &curves[i];
        assert(c@ == builtin_table()[i as int]);
        out.push(
            EqPreset {
                id: c.id.clone(),
                name: c.name.clone(),
                builtin: true,
                bands: curve(&c.anchors, f),
                pre_gain: 0,
            },
        );
        i += 1;
    }
    out
}

/// The flat preset changes nothing: where the arithmetic keeps zero, its bands are all zero.
pub proof fn law_flat_preset_is_zero(g: spec_fn(Calc, u32, u32) -> u32, band: int)
    requires
        0 <= band < 31,
        g(Calc::Whole, 0, 0) == 0,
        g(Calc::Div, 0, TEN_BITS) == 0,
        g(Calc::Mul, 0, TEN_BITS) == 0,
        g(Calc::Round, 0, 0) == 0,
    ensures
        curve_gains(builtin_table()[0].anchors, g)[band] == 0,
{
    assert(builtin_table()[0].anchors == Seq::<(u32, i32)>::empty());
}

/// Tenths are ordered as their numbers are, and a tenth below zero is the number of the one above it
/// with the other sign.
pub proof fn law_tenths_are_ordered(s: i32, t: i32, g: spec_fn(Calc, u32, u32) -> u32)
    requires
        crate::dsp::numbers::ordinary(g),
        -1000 <= s <= t <= 1000,
    ensures
        crate::float_bits::at_most(tenths_number(s, g), tenths_number(t, g)),
        t > 0 ==> tenths_number((-t) as i32, g) == crate::float_bits::negated(tenths_number(t, g)),
        crate::dsp::numbers::zero(tenths_number(0, g)),
{
    lemma_tenths(s, g);
    lemma_tenths(t, g);
    lemma_tenths(0, g);
    reveal(crate::dsp::numbers::ordinary);
    assert(crate::dsp::numbers::positive(TEN_BITS));
    if 0 <= s {
        let (a, b) = (g(Calc::Whole, s as u32, 0), g(Calc::Whole, t as u32, 0));
        assert(crate::float_bits::at_most(a, b));
    } else if t < 0 {
        let (a, b) = (g(Calc::Whole, (-s) as u32, 0), g(Calc::Whole, (-t) as u32, 0));
        assert(crate::float_bits::at_most(b, a));
        assert(crate::float_bits::at_most(g(Calc::Div, b, TEN_BITS), g(Calc::Div, a, TEN_BITS)));
    }
}

proof fn lemma_tenths(t: i32, g: spec_fn(Calc, u32, u32) -> u32)
    requires
        crate::dsp::numbers::ordinary(g),
        -1000 <= t <= 1000,
    ensures
        t >= 0 ==> crate::float_bits::at_most(0, tenths_number(t, g)),
        t <= 0 ==> crate::float_bits::at_most(tenths_number(t, g), 0),
        crate::dsp::numbers::within(tenths_number(t, g), 32),
{
    reveal(crate::dsp::numbers::ordinary);
    let n = if t < 0 {
        (-t) as u32
    } else {
        t as u32
    };
    let a = g(Calc::Whole, n, 0);
    assert(crate::float_bits::at_most(g(Calc::Whole, 0, 0), a));
    assert(crate::dsp::numbers::positive(TEN_BITS) && crate::dsp::numbers::reaches(TEN_BITS, 0));
    let none = g(Calc::Div, 0, TEN_BITS);
    assert(crate::dsp::numbers::zero(none));
    assert(crate::float_bits::at_most(none, g(Calc::Div, a, TEN_BITS)));
    assert(crate::dsp::numbers::within(a, 32));
    assert(crate::dsp::numbers::within(g(Calc::Div, a, TEN_BITS), 32));
}

/// Between two points the gain goes from that of the lower towards that of the higher: it does not
/// leave the lower one to the wrong side, and rises or falls with the frequency as the points do.
pub proof fn law_gains_follow_their_points(
    a: (u32, i32),
    b: (u32, i32),
    center: u32,
    above: u32,
    g: spec_fn(Calc, u32, u32) -> u32,
)
    requires
        crate::dsp::numbers::ordinary(g),
        -1000 <= a.1 <= 1000,
        -1000 <= b.1 <= 1000,
        ({
            let from = g(Calc::Log10, g(Calc::Whole, a.0, 0), 0);
            let to = g(Calc::Log10, g(Calc::Whole, b.0, 0), 0);
            let (x, y) = (g(Calc::Log10, center, 0), g(Calc::Log10, above, 0));
            &&& crate::dsp::numbers::within(from, 6)
            &&& crate::dsp::numbers::within(y, 6)
            &&& crate::float_bits::at_most(from, x)
            &&& crate::float_bits::at_most(x, y)
            &&& crate::dsp::numbers::reaches(g(Calc::Sub, to, from), 20)
            &&& crate::dsp::numbers::within(g(Calc::Sub, to, from), 7)
        }),
    ensures
        a.1 <= b.1 ==> crate::float_bits::at_most(
            tenths_number(a.1, g),
            anchored_gain(a, b, center, g),
        ) && crate::float_bits::at_most(
            anchored_gain(a, b, center, g),
            anchored_gain(a, b, above, g),
        ),
        a.1 >= b.1 ==> crate::float_bits::at_most(
            anchored_gain(a, b, center, g),
            tenths_number(a.1, g),
        ) && crate::float_bits::at_most(
            anchored_gain(a, b, above, g),
            anchored_gain(a, b, center, g),
        ),
{
    if a.1 <= b.1 {
        law_tenths_are_ordered(a.1, b.1, g);
    } else {
        law_tenths_are_ordered(b.1, a.1, g);
    }
    lemma_tenths(a.1, g);
    lemma_tenths(b.1, g);
    reveal(crate::dsp::numbers::ordinary);
    let from = g(Calc::Log10, g(Calc::Whole, a.0, 0), 0);
    let to = g(Calc::Log10, g(Calc::Whole, b.0, 0), 0);
    let span = g(Calc::Sub, to, from);
    assert(crate::dsp::numbers::positive(span));
    let (x, y) = (g(Calc::Log10, center, 0), g(Calc::Log10, above, 0));
    let (d, e) = (g(Calc::Sub, x, from), g(Calc::Sub, y, from));
    assert(crate::float_bits::at_most(d, e));
    assert(crate::dsp::numbers::within(e, 7));
    let none = g(Calc::Sub, from, from);
    assert(crate::dsp::numbers::zero(none) && crate::float_bits::at_most(none, d));
    let (s, t) = (g(Calc::Div, d, span), g(Calc::Div, e, span));
    assert(crate::float_bits::at_most(s, t));
    assert(crate::dsp::numbers::within(t, 27));
    let nought = g(Calc::Div, none, span);
    assert(crate::dsp::numbers::zero(nought) && crate::float_bits::at_most(nought, s));
    let (low, high) = (tenths_number(a.1, g), tenths_number(b.1, g));
    let rise = g(Calc::Sub, high, low);
    assert(crate::dsp::numbers::within(rise, 33));
    let still = g(Calc::Sub, low, low);
    assert(crate::dsp::numbers::zero(still));
    let (p, q) = (g(Calc::Mul, rise, s), g(Calc::Mul, rise, t));
    lemma_slope(rise, s, t, g);
    assert(crate::float_bits::same(g(Calc::Add, low, 0), low));
    if a.1 <= b.1 {
        assert(crate::float_bits::at_most(still, rise));
        assert(crate::float_bits::at_most(g(Calc::Add, low, 0), g(Calc::Add, low, p)));
        assert(crate::float_bits::at_most(g(Calc::Add, low, p), g(Calc::Add, low, q)));
    }
    if a.1 >= b.1 {
        assert(crate::float_bits::at_most(rise, still));
        assert(crate::float_bits::at_most(g(Calc::Add, low, p), g(Calc::Add, low, 0)));
        assert(crate::float_bits::at_most(g(Calc::Add, low, q), g(Calc::Add, low, p)));
    }
}

proof fn lemma_slope(rise: u32, s: u32, t: u32, g: spec_fn(Calc, u32, u32) -> u32)
    requires
        crate::dsp::numbers::ordinary(g),
        crate::dsp::numbers::within(rise, 33),
        crate::float_bits::at_most(0, s),
        crate::float_bits::at_most(s, t),
        crate::dsp::numbers::within(t, 27),
    ensures
        ({
            let (p, q) = (g(Calc::Mul, rise, s), g(Calc::Mul, rise, t));
            &&& crate::float_bits::at_most(0, rise) ==> crate::float_bits::at_most(0, p)
                && crate::float_bits::at_most(p, q)
            &&& crate::float_bits::at_most(rise, 0) ==> crate::float_bits::at_most(p, 0)
                && crate::float_bits::at_most(q, p)
        }),
{
    reveal(crate::dsp::numbers::ordinary);
    let (p, q) = (g(Calc::Mul, rise, s), g(Calc::Mul, rise, t));
    let back = crate::float_bits::negated(rise);
    let (m, n) = (g(Calc::Mul, back, s), g(Calc::Mul, back, t));
    assert(crate::dsp::numbers::within(s, 27) && crate::dsp::numbers::within(back, 33));
    assert(crate::dsp::numbers::within(p, 60) && crate::dsp::numbers::within(q, 60));
    assert(crate::dsp::numbers::within(m, 60) && crate::dsp::numbers::within(n, 60));
    if crate::dsp::numbers::zero(rise) {
        assert(crate::dsp::numbers::zero(p) && crate::dsp::numbers::zero(q));
    } else if crate::float_bits::less(0, rise) {
        assert(crate::dsp::numbers::positive(rise));
        assert(crate::float_bits::at_most(g(Calc::Mul, rise, 0), p));
        assert(crate::float_bits::at_most(p, q));
    } else {
        assert(crate::dsp::numbers::positive(back));
        assert(crate::float_bits::at_most(g(Calc::Mul, back, 0), m));
        assert(crate::float_bits::at_most(m, n));
        assert(crate::float_bits::negated(back) == rise);
        assert(crate::float_bits::same(p, crate::float_bits::negated(m)));
        assert(crate::float_bits::same(q, crate::float_bits::negated(n)));
    }
}

} // verus!
