//! The library of bundled `.vdc` corrections.

use vstd::prelude::*;
use crate::text::same_text;

verus! {

/// A bundled correction: its name and the text of its file.
#[derive(Debug, Clone, PartialEq, Eq)]
pub struct BundledDdc {
    pub name: String,
    pub vdc: String,
}

/// How many corrections there are.
pub fn len(presets: &[BundledDdc]) -> (r: usize)
    ensures
        r == presets@.len(),
{
    presets.len()
}

/// Whether there are no corrections.
pub fn is_empty(presets: &[BundledDdc]) -> (r: bool)
    ensures
        r == (presets@.len() == 0),
{
    presets.len() == 0
}

/// The names of the corrections, in their order.
pub fn names(presets: &[BundledDdc]) -> (r: Vec<String>)
    ensures
        crate::text::texts(r@) == presets@.map_values(|p: BundledDdc| p.name@),
{
    let mut out: Vec<String> = Vec::new();
    let mut i: usize = 0;
    while i < presets.len()
        invariant
            i <= presets@.len(),
            out@.len() == i,
            forall|k: int| 0 <= k < i ==> (#[trigger] out@[k])@ == presets@[k].name@,
        decreases presets@.len() - i,
    {
        out.push(presets[i].name.clone());
        i += 1;
    }
    assert(crate::text::texts(out@) =~= presets@.map_values(|p: BundledDdc| p.name@));
    out
}

/// The first correction from `from` on with the given name.
pub open spec fn named_from(presets: Seq<BundledDdc>, name: Seq<char>, from: int) -> Option<int>
    decreases presets.len() - from,
{
    if !(0 <= from < presets.len()) {
        None
    } else if presets[from].name@ == name {
        Some(from)
    } else {
        named_from(presets, name, from + 1)
    }
}

/// The file of the correction with exactly the given name.
pub fn get<'a>(presets: &'a [BundledDdc], name: &str) -> (r: Option<&'a str>)
    ensures
        match r {
            Some(vdc) => named_from(presets@, name@, 0) matches Some(i) && vdc@ == presets@[i].vdc@,
            None => named_from(presets@, name@, 0) is None,
        },
{
    let mut i: usize = 0;
    while i < presets.len()
        invariant
            i <= presets@.len(),
            named_from(presets@, name@, i as int) == named_from(presets@, name@, 0),
        decreases presets@.len() - i,
    {
        if same_text(presets[i].name.as_str(), name) {
            return Some(presets[i].vdc.as_str());
        }
        i += 1;
    }
    None
}

/// Every listed name is found, and where names are distinct it is found with its own file.
pub proof fn law_listed_names_are_found(presets: Seq<BundledDdc>, i: int)
    requires
        0 <= i < presets.len(),
    ensures
        named_from(presets, presets[i].name@, 0) is Some,
        (forall|a: int, b: int|
            0 <= a < b < presets.len() ==> (#[trigger] presets[a]).name@ != (
            #[trigger] presets[b]).name@) ==> named_from(presets, presets[i].name@, 0) == Some(i),
{
    lemma_named(presets, presets[i].name@, 0);
    if let Some(k) = named_from(presets, presets[i].name@, 0) {
        if k < i {
            assert(presets[k].name@ == presets[i].name@);
        } else if k > i {
            assert(presets[i].name@ != presets[i].name@);
        }
    }
}

proof fn lemma_named(presets: Seq<BundledDdc>, name: Seq<char>, from: int)
    requires
        0 <= from,
    ensures
        match named_from(presets, name, from) {
            Some(i) => from <= i < presets.len() && presets[i].name@ == name && forall|j: int|
                from <= j < i ==> (#[trigger] presets[j]).name@ != name,
            None => forall|j: int| from <= j < presets.len() ==> (#[trigger] presets[j]).name@ != name,
        },
    decreases presets.len() - from,
{
    if from < presets.len() && presets[from].name@ != name {
        lemma_named(presets, name, from + 1);
    }
}

} // verus!
