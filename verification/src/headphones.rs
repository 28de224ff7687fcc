//! The bundled correction profiles of headphones.

use vstd::prelude::*;
use crate::text::same_text;
use crate::types::HeadphoneProfile;

verus! {

/// The first profile with an id.
pub fn get<'a>(profiles: &'a Vec<HeadphoneProfile>, id: &str) -> (r: Option<&'a HeadphoneProfile>)
    ensures
        match r {
            Some(p) => exists|i: int|
                #![trigger profiles@[i]]
                0 <= i < profiles@.len() && *p == profiles@[i] && p.id@ == id@ && forall|j: int|
                    0 <= j < i ==> profiles@[j].id@ != id@,
            None => forall|j: int| 0 <= j < profiles@.len() ==> profiles@[j].id@ != id@,
        },
{
    let mut i: usize = 0;
    while i < profiles.len()
        invariant
            i <= profiles@.len(),
            forall|j: int| 0 <= j < i ==> profiles@[j].id@ != id@,
        decreases profiles@.len() - i,
    {
        if same_text(profiles[i].id.as_str(), id) {
            assert(profiles@[i as int].id@ == id@);
            return Some(&profiles[i]);
        }
        i += 1;
    }
    None
}

} // verus!
