//! The rules of the store of equalizer presets: built-in presets are fixed, custom ones can be
//! added, changed and deleted. The rows themselves are kept in a database by the caller.

use vstd::prelude::*;
use crate::error::HmError;
use crate::text::{decimal_wide, join3, starts_with, trim};
use crate::types::EqPreset;

verus! {

/// The id of a preset that is made at a time in nanoseconds.
pub open spec fn custom_id(nanos: nat) -> Seq<char> {
    "custom:"@ + crate::text::decimal(nanos) + ""@
}

/// A new custom preset, made at a time in nanoseconds. A blank name is refused.
pub fn custom_preset(name: &str, bands: [u32; 31], pre_gain: u32, nanos: u128) -> (r: Result<
    EqPreset,
    HmError,
>)
    ensures
        match r {
            Ok(p) => {
                &&& crate::text::trimmed(name@).len() > 0
                &&& p.id@ == custom_id(nanos as nat)
                &&& p.name@ == crate::text::trimmed(name@)
                &&& !p.builtin
                &&& p.bands == bands
                &&& p.pre_gain == pre_gain
            },
            Err(e) => {
                &&& crate::text::trimmed(name@).len() == 0
                &&& e matches HmError::Invalid(why)
                &&& why@ == "preset name is empty"@
            },
        },
{
    let name = trim(name);
    if name.as_str().is_empty() {
        return Err(HmError::Invalid("preset name is empty".to_owned()));
    }
    Ok(
        EqPreset {
            id: join3("custom:", decimal_wide(nanos).as_str(), ""),
            name,
            builtin: false,
            bands,
            pre_gain,
        },
    )
}

/// The id belongs to a built-in preset.
pub open spec fn builtin_id(id: Seq<char>) -> bool {
    crate::text::starts(id, "builtin:"@)
}

/// Custom presets never take the id of a built-in one.
pub proof fn law_custom_ids_are_not_builtin(nanos: nat)
    ensures
        !builtin_id(custom_id(nanos)),
{
    reveal_strlit("custom:");
    reveal_strlit("builtin:");
    if builtin_id(custom_id(nanos)) {
        assert(custom_id(nanos)[0] == 'c');
        assert(custom_id(nanos).subrange(0, "builtin:"@.len() as int)[0] == 'b');
    }
}

/// Whether a preset may be changed.
pub fn check_update(builtin: bool, id: &str) -> (r: Result<(), HmError>)
    ensures
        match r {
            Ok(()) => !builtin && !builtin_id(id@),
            Err(e) => {
                &&& builtin || builtin_id(id@)
                &&& e matches HmError::Invalid(why)
                &&& why@ == "built-in presets cannot be edited"@
            },
        },
{
    if builtin || starts_with(id, "builtin:") {
        return Err(HmError::Invalid("built-in presets cannot be edited".to_owned()));
    }
    Ok(())
}

/// Whether a preset may be deleted.
pub fn check_delete(id: &str) -> (r: Result<(), HmError>)
    ensures
        match r {
            Ok(()) => !builtin_id(id@),
            Err(e) => {
                &&& builtin_id(id@)
                &&& e matches HmError::Invalid(why)
                &&& why@ == "built-in presets cannot be deleted"@
            },
        },
{
    if starts_with(id, "builtin:") {
        return Err(HmError::Invalid("built-in presets cannot be deleted".to_owned()));
    }
    Ok(())
}

/// What a change or a deletion means that has met so many rows.
pub fn changed_rows(changed: usize, id: &str) -> (r: Result<(), HmError>)
    ensures
        match r {
            Ok(()) => changed > 0,
            Err(e) => {
                &&& changed == 0
                &&& e matches HmError::NotFound(what)
                &&& what@ == "custom preset "@ + id@ + ""@
            },
        },
{
    if changed == 0 {
        return Err(HmError::NotFound(join3("custom preset ", id, "")));
    }
    Ok(())
}

/// The error of a preset that does not exist.
pub fn no_preset(id: &str) -> (r: HmError)
    ensures
        r matches HmError::NotFound(what) && what@ == "preset "@ + id@ + ""@,
{
    HmError::NotFound(join3("preset ", id, ""))
}

/// A preset from its row. A row with a wrong number of bands is refused.
pub fn to_preset(id: String, name: String, builtin: i64, values: &Vec<u32>, pre_gain: u32) -> (r:
    Result<EqPreset, HmError>)
    ensures
        match r {
            Ok(p) => {
                &&& values@.len() == 31
                &&& p.id@ == id@
                &&& p.name@ == name@
                &&& p.builtin == (builtin != 0)
                &&& p.bands@ == values@
                &&& p.pre_gain == pre_gain
            },
            Err(e) => {
                &&& values@.len() != 31
                &&& e matches HmError::Invalid(why)
                &&& why@ == "preset "@ + id@ + " has the wrong band count"@
            },
        },
{
    if values.len() != 31 {
        return Err(HmError::Invalid(join3("preset ", id.as_str(), " has the wrong band count")));
    }
    let mut bands: [u32; 31] = [0; 31];
    let mut i: usize = 0;
    while i < 31
        invariant
            i <= 31,
            values@.len() == 31,
            bands@.len() == 31,
            forall|k: int| 0 <= k < i ==> bands@[k] == values@[k],
        decreases 31 - i,
    {
        bands[i] = values[i];
        i += 1;
    }
    assert(bands@ =~= values@);
    Ok(EqPreset { id, name, builtin: builtin != 0, bands, pre_gain })
}

} // verus!
