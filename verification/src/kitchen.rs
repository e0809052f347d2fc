//! The kitchen walkthrough of module paths: lighting the fire walks
//! through the house's rooms, and each visit announces itself with a line.

use vstd::prelude::*;

verus! {

/// The lines lighting the fire announces, in the order the rooms are
/// visited: the fire itself, the sink, the bath, and the sink once more.
pub fn fire() -> (lines: Vec<String>)
    ensures
        lines@.len() == 4,
        lines@[0]@ == "fire"@,
        lines@[1]@ == "cleaning sink"@,
        lines@[2]@ == "bath cleaning"@,
        lines@[3]@ == "cleaning sink"@,
{
    let mut lines: Vec<String> = Vec::new();
    lines.push("fire".to_owned());
    lines.push("cleaning sink".to_owned());
    lines.push("bath cleaning".to_owned());
    lines.push("cleaning sink".to_owned());
    lines
}

/// The lines cooking announces: the cooking itself, then the sink it
/// cleans afterwards.
pub fn cook() -> (lines: Vec<String>)
    ensures
        lines@.len() == 2,
        lines@[0]@ == "cooking"@,
        lines@[1]@ == "cleaning sink"@,
{
    let mut lines: Vec<String> = Vec::new();
    lines.push("cooking".to_owned());
    lines.push("cleaning sink".to_owned());
    lines
}

} // verus!
