//! Presets of the whole chain: named snapshots of the engine state.
//!
//! Reading and writing the file that keeps them is left to the caller, who hands the list in and
//! stores it again.

use vstd::prelude::*;
use crate::error::HmError;
use crate::text::{decimal_text, decimal_wide, join3, same_text, trim};
use crate::types::EngineState;

verus! {

/// A named snapshot of the engine state.
#[derive(Debug, Clone, PartialEq, Eq)]
pub struct ChainPreset {
    pub id: String,
    pub name: String,
    pub state: EngineState,
}

/// The content of a [`ChainPreset`].
pub struct ChainPresetView {
    pub id: Seq<char>,
    pub name: Seq<char>,
    pub state: EngineState,
}

impl View for ChainPreset {
    type V = ChainPresetView;

    open spec fn view(&self) -> ChainPresetView {
        ChainPresetView { id: self.id@, name: self.name@, state: self.state }
    }
}

/// The contents of presets.
pub open spec fn preset_views(s: Seq<ChainPreset>) -> Seq<ChainPresetView> {
    s.map_values(|p: ChainPreset| p@)
}

/// The id of a preset that is added, at a time in milliseconds, to so many others.
pub open spec fn fresh_id(millis: u64, count: nat) -> Seq<char> {
    crate::text::decimal(millis as nat) + crate::text::decimal(count) + ""@
}

/// A preset has the id.
pub open spec fn has_id(presets: Seq<ChainPresetView>, id: Seq<char>) -> bool {
    exists|i: int| 0 <= i < presets.len() && (#[trigger] presets[i]).id == id
}

/// The first number, counted from the length of the list, whose id no preset has.
pub open spec fn first_free(presets: Seq<ChainPresetView>, millis: u64, n: nat) -> bool {
    &&& presets.len() <= n
    &&& !has_id(presets, fresh_id(millis, n))
    &&& forall|m: nat|
        presets.len() <= m < n ==> has_id(presets, #[trigger] fresh_id(millis, m))
}

/// The id is made of the time and the first free number.
pub open spec fn new_id(presets: Seq<ChainPresetView>, millis: u64, id: Seq<char>) -> bool {
    exists|n: nat| first_free(presets, millis, n) && id == #[trigger] fresh_id(millis, n)
}

/// The presets whose id is made of the time and a number from `n` on.
spec fn later(presets: Seq<ChainPresetView>, millis: u64, n: nat) -> Set<int> {
    Set::new(
        |i: int|
            0 <= i < presets.len() && exists|m: nat|
                n <= m && presets[i].id == #[trigger] fresh_id(millis, m),
    )
}

proof fn lemma_later(presets: Seq<ChainPresetView>, millis: u64, n: nat)
    ensures
        later(presets, millis, n).finite(),
        later(presets, millis, n).len() <= presets.len(),
        has_id(presets, fresh_id(millis, n)) ==> later(presets, millis, n + 1).len() < later(
            presets,
            millis,
            n,
        ).len(),
{
    let all = vstd::set_lib::set_int_range(0, presets.len() as int);
    vstd::set_lib::lemma_int_range(0, presets.len() as int);
    let a = later(presets, millis, n);
    let b = later(presets, millis, n + 1);
    assert(a.subset_of(all));
    vstd::set_lib::lemma_len_subset(a, all);
    assert forall|i: int| b.contains(i) implies a.contains(i) by {
        let m = choose|m: nat| n + 1 <= m && presets[i].id == #[trigger] fresh_id(millis, m);
        assert(n <= m && presets[i].id == fresh_id(millis, m));
    }
    if has_id(presets, fresh_id(millis, n)) {
        let i = choose|i: int|
            0 <= i < presets.len() && (#[trigger] presets[i]).id == fresh_id(millis, n);
        assert(a.contains(i));
        assert(!b.contains(i)) by {
            if b.contains(i) {
                let m = choose|m: nat|
                    n + 1 <= m && presets[i].id == #[trigger] fresh_id(millis, m);
                law_rapid_saves_get_distinct_ids(millis, n, m);
            }
        }
        assert(b.subset_of(a.remove(i)));
        vstd::set_lib::lemma_len_subset(b, a.remove(i));
    }
}

fn known(presets: &Vec<ChainPreset>, id: &str) -> (r: bool)
    ensures
        r == has_id(preset_views(presets@), id@),
{
    let mut i: usize = 0;
    while i < presets.len()
        invariant
            i <= presets@.len(),
            forall|k: int| 0 <= k < i ==> (#[trigger] preset_views(presets@)[k]).id != id@,
        decreases presets@.len() - i,
    {
        if same_text(presets[i].id.as_str(), id) {
            assert(preset_views(presets@)[i as int].id == id@);
            return true;
        }
        i += 1;
    }
    false
}

fn unique_id(millis: u64, presets: &Vec<ChainPreset>) -> (r: String)
    ensures
        new_id(preset_views(presets@), millis, r@),
{
    let ghost views = preset_views(presets@);
    let mut n: u128 = presets.len() as u128;
    proof {
        lemma_later(views, millis, n as nat);
    }
    loop
        invariant
            presets@.len() <= usize::MAX,
            views == preset_views(presets@),
            views.len() == presets@.len(),
            presets@.len() <= n,
            n + later(views, millis, n as nat).len() <= 2 * presets@.len(),
            forall|m: nat|
                presets@.len() <= m < n ==> has_id(views, #[trigger] fresh_id(millis, m)),
        decreases later(views, millis, n as nat).len(),
    {
        let id = join3(decimal_text(millis).as_str(), decimal_wide(n).as_str(), "");
        if !known(presets, id.as_str()) {
            assert(first_free(views, millis, n as nat));
            return id;
        }
        proof {
            lemma_later(views, millis, n as nat);
        }
        n += 1;
    }
}

/// Presets added within one millisecond to lists of different lengths get different ids.
pub proof fn law_rapid_saves_get_distinct_ids(millis: u64, a: nat, b: nat)
    requires
        a != b,
    ensures
        fresh_id(millis, a) != fresh_id(millis, b),
{
    reveal_strlit("");
    crate::text::lemma_decimal_distinct(crate::text::decimal(millis as nat), a, b);
    let lead = crate::text::decimal(millis as nat);
    assert(fresh_id(millis, a) =~= lead + crate::text::decimal(a));
    assert(fresh_id(millis, b) =~= lead + crate::text::decimal(b));
}

/// The presets but those with the given id.
pub open spec fn without(presets: Seq<ChainPresetView>, id: Seq<char>) -> Seq<ChainPresetView>
    decreases presets.len(),
{
    if presets.len() == 0 {
        presets
    } else {
        let rest = without(presets.drop_last(), id);
        if presets.last().id == id {
            rest
        } else {
            rest.push(presets.last())
        }
    }
}

/// The list of presets.
#[derive(Debug)]
pub struct ChainPresetStore {
    presets: Vec<ChainPreset>,
}

impl View for ChainPresetStore {
    type V = Seq<ChainPresetView>;

    closed spec fn view(&self) -> Seq<ChainPresetView> {
        preset_views(self.presets@)
    }
}

impl ChainPresetStore {
    /// The list as it is stored; where nothing is stored it is empty.
    pub fn open(stored: Option<Vec<ChainPreset>>) -> (r: ChainPresetStore)
        ensures
            r@ == (match stored {
                Some(presets) => preset_views(presets@),
                None => Seq::empty(),
            }),
    {
        match stored {
            Some(presets) => ChainPresetStore { presets },
            None => {
                let presets: Vec<ChainPreset> = Vec::new();
                assert(preset_views(presets@) =~= Seq::empty());
                ChainPresetStore { presets }
            },
        }
    }

    /// The presets, in the order in which they were added.
    pub fn list(&self) -> (r: &Vec<ChainPreset>)
        ensures
            preset_views(r@) == self@,
    {
        &self.presets
    }

    fn add(&mut self, name: String, state: EngineState, millis: u64) -> (id: String)
        ensures
            new_id(old(self)@, millis, id@),
            final(self)@ == old(self)@.push(ChainPresetView { id: id@, name: name@, state }),
    {
        let id = unique_id(millis, &self.presets);
        let ghost before = self.presets@;
        assert(preset_views(before).len() == before.len());
        let preset = ChainPreset { id: id.clone(), name, state };
        let ghost view = preset@;
        self.presets.push(preset);
        assert(preset_views(self.presets@) =~= preset_views(before).push(view));
        id
    }

    /// Adds the engine state under a name, at a time in milliseconds; the result is the id of the
    /// new preset. A blank name is refused.
    pub fn save(&mut self, name: &str, state: EngineState, millis: u64) -> (r: Result<
        String,
        HmError,
    >)
        ensures
            match r {
                Ok(id) => {
                    &&& crate::text::trimmed(name@).len() > 0
                    &&& new_id(old(self)@, millis, id@)
                    &&& final(self)@ == old(self)@.push(
                        ChainPresetView { id: id@, name: crate::text::trimmed(name@), state },
                    )
                },
                Err(e) => {
                    &&& crate::text::trimmed(name@).len() == 0
                    &&& e matches HmError::Invalid(why)
                    &&& why@ == "preset name is empty"@
                    &&& final(self)@ == old(self)@
                },
            },
    {
        let name = trim(name);
        if name.as_str().is_empty() {
            return Err(HmError::Invalid("preset name is empty".to_owned()));
        }
        Ok(self.add(name, state, millis))
    }

    /// Adds a preset from elsewhere. Its own id is not taken over: it gets a fresh one, which is
    /// the result.
    pub fn upsert_imported(&mut self, preset: ChainPreset, millis: u64) -> (id: String)
        ensures
            new_id(old(self)@, millis, id@),
            final(self)@ == old(self)@.push(
                ChainPresetView { id: id@, name: preset@.name, state: preset@.state },
            ),
    {
        self.add(preset.name, preset.state, millis)
    }

    /// Deletes the preset with an id; that there is none is an error.
    pub fn delete(&mut self, id: &str) -> (r: Result<(), HmError>)
        ensures
            final(self)@ == without(old(self)@, id@),
            match r {
                Ok(()) => final(self)@.len() < old(self)@.len(),
                Err(e) => {
                    &&& final(self)@ == old(self)@
                    &&& e matches HmError::NotFound(what)
                    &&& what@ == "chain preset "@ + id@ + ""@
                },
            },
    {
        let ghost all = preset_views(self.presets@);
        let before: usize = self.presets.len();
        let mut i: usize = 0;
        let ghost mut j: int = 0;
        proof {
            assert(all.take(0) =~= Seq::empty());
            assert(preset_views(self.presets@).take(0) =~= Seq::empty());
            assert(preset_views(self.presets@).skip(0) =~= all.skip(0));
        }
        while i < self.presets.len()
            invariant
                all == preset_views(old(self).presets@),
                before == all.len(),
                0 <= i <= self.presets@.len(),
                0 <= j <= all.len(),
                i <= j,
                self.presets@.len() - i == all.len() - j,
                preset_views(self.presets@).take(i as int) == without(all.take(j), id@),
                preset_views(self.presets@).skip(i as int) == all.skip(j),
            decreases self.presets@.len() - i,
        {
            let ghost now = preset_views(self.presets@);
            proof {
                assert(all.take(j + 1).drop_last() =~= all.take(j));
                assert(now.skip(i as int)[0] == now[i as int]);
                assert(all.skip(j)[0] == all[j]);
                assert(all.take(j + 1).last() == now[i as int]);
            }
            if same_text(self.presets[i].id.as_str(), id) {
                self.presets.remove(i);
                proof {
                    let later = preset_views(self.presets@);
                    assert(later =~= now.remove(i as int));
                    assert(later.take(i as int) =~= now.take(i as int));
                    assert(later.skip(i as int) =~= now.skip(i as int).skip(1));
                    assert(all.skip(j).skip(1) =~= all.skip(j + 1));
                }
            } else {
                proof {
                    assert(now.take(i + 1) =~= now.take(i as int).push(now[i as int]));
                    assert(now.skip(i + 1) =~= now.skip(i as int).skip(1));
                    assert(all.skip(j).skip(1) =~= all.skip(j + 1));
                }
                i += 1;
            }
            proof {
                j = j + 1;
            }
        }
        proof {
            assert(all.take(j) =~= all);
            assert(preset_views(self.presets@).take(i as int) =~= preset_views(self.presets@));
            lemma_without(all, id@);
        }
        if self.presets.len() == before {
            return Err(HmError::NotFound(join3("chain preset ", id, "")));
        }
        Ok(())
    }
}

/// Deleting leaves no preset with the id, shortens the list exactly where there was one, and
/// leaves it alone where there was none.
pub proof fn lemma_without(presets: Seq<ChainPresetView>, id: Seq<char>)
    ensures
        without(presets, id).len() <= presets.len(),
        without(presets, id).len() == presets.len() <==> without(presets, id) == presets,
        without(presets, id) == presets <==> forall|i: int|
            0 <= i < presets.len() ==> (#[trigger] presets[i]).id != id,
        forall|i: int|
            0 <= i < without(presets, id).len() ==> (#[trigger] without(presets, id)[i]).id != id,
    decreases presets.len(),
{
    if presets.len() > 0 {
        let head = presets.drop_last();
        let rest = without(head, id);
        lemma_without(head, id);
        assert(presets.last() == presets[presets.len() - 1]);
        if presets.last().id != id {
            if rest == head {
                assert(rest.push(presets.last()) =~= presets);
                assert forall|i: int| 0 <= i < presets.len() implies (#[trigger] presets[i]).id
                    != id by {
                    if i < head.len() {
                        assert(presets[i] == head[i]);
                    }
                }
            } else {
                assert(rest.len() < head.len());
                let i = choose|i: int| 0 <= i < head.len() && (#[trigger] head[i]).id == id;
                assert(presets[i].id == id);
            }
        }
    }
}

/// No two presets have the same id.
pub open spec fn distinct_ids(presets: Seq<ChainPresetView>) -> bool {
    forall|i: int, j: int|
        0 <= i < j < presets.len() ==> (#[trigger] presets[i]).id != (#[trigger] presets[j]).id
}

/// Ids stay unique: a preset added under a new id has an id of its own, and taking presets out
/// brings no two together.
pub proof fn law_ids_stay_unique(
    presets: Seq<ChainPresetView>,
    added: ChainPresetView,
    millis: u64,
    gone: Seq<char>,
)
    requires
        distinct_ids(presets),
    ensures
        new_id(presets, millis, added.id) ==> distinct_ids(presets.push(added)),
        distinct_ids(without(presets, gone)),
    decreases presets.len(),
{
    if new_id(presets, millis, added.id) {
        let more = presets.push(added);
        assert forall|i: int, j: int| 0 <= i < j < more.len() implies (#[trigger] more[i]).id != (
        #[trigger] more[j]).id by {
            assert(more[i] == presets[i]);
        }
    }
    if presets.len() > 0 {
        let head = presets.drop_last();
        assert forall|i: int, j: int| 0 <= i < j < head.len() implies (#[trigger] head[i]).id != (
        #[trigger] head[j]).id by {
            assert(head[i] == presets[i] && head[j] == presets[j]);
        }
        law_ids_stay_unique(head, added, millis, gone);
        let rest = without(head, gone);
        assert forall|i: int| 0 <= i < rest.len() implies (#[trigger] rest[i]).id
            != presets.last().id by {
            lemma_without_keeps(head, gone, i);
            let k = choose|k: int| 0 <= k < head.len() && #[trigger] head[k] == rest[i];
            assert(presets[k] == head[k]);
        }
        let kept = rest.push(presets.last());
        assert forall|i: int, j: int| 0 <= i < j < kept.len() implies (#[trigger] kept[i]).id != (
        #[trigger] kept[j]).id by {
            assert(kept[i] == rest[i]);
        }
    }
}

proof fn lemma_without_keeps(presets: Seq<ChainPresetView>, id: Seq<char>, i: int)
    requires
        0 <= i < without(presets, id).len(),
    ensures
        exists|k: int| 0 <= k < presets.len() && #[trigger] presets[k] == without(presets, id)[i],
    decreases presets.len(),
{
    let head = presets.drop_last();
    let rest = without(head, id);
    if i < rest.len() {
        lemma_without_keeps(head, id, i);
        let k = choose|k: int| 0 <= k < head.len() && #[trigger] head[k] == rest[i];
        assert(presets[k] == head[k]);
        assert(without(presets, id)[i] == rest[i]);
    } else {
        assert(presets[presets.len() - 1] == presets.last());
    }
}

/// A saved preset is in the list with its name and state, and deleting it by its id takes it out
/// again without touching presets that have other ids.
pub proof fn law_saved_presets_can_be_deleted(
    presets: Seq<ChainPresetView>,
    added: ChainPresetView,
)
    requires
        forall|i: int| 0 <= i < presets.len() ==> (#[trigger] presets[i]).id != added.id,
    ensures
        presets.push(added).last() == added,
        without(presets.push(added), added.id) == presets,
{
    assert(presets.push(added).drop_last() =~= presets);
    lemma_without(presets, added.id);
}

} // verus!
