//! Class lookup of the verdict stage.

use vstd::prelude::*;

verus! {

/// The index of the first class named `name`, or 0 when no class is, cut to
/// a byte for the verdict payload.
pub fn class_index(classes: &[String], name: &str) -> (r: u8)
    ensures
        (forall|i: int| 0 <= i < classes@.len() ==> classes@[i]@ != name@) ==> r == 0,
        forall|i: int|
            0 <= i < classes@.len() && classes@[i]@ == name@ && (forall|j: int|
                0 <= j < i ==> classes@[j]@ != name@) ==> r == i as u8,
{
    let wanted = String::from_str(name);
    let mut i: usize = 0;
    while i < classes.len()
        invariant
            i <= classes@.len(),
            wanted@ == name@,
            forall|j: int| 0 <= j < i ==> classes@[j]@ != name@,
        decreases classes@.len() - i,
    {
        if classes[i] == wanted {
            return i as u8;
        }
        i = i + 1;
    }
    0
}

} // verus!
