//! The interactive picker's data: its menu labels, and the candidate a
//! choice stands for. Showing the menu is the caller's work.
use vstd::prelude::*;
use crate::matcher::Ranked;

verus! {

/// Menu labels: one path per candidate, best first.
pub fn labels(ranked: &[Ranked]) -> (out: Vec<String>)
    ensures
        out@.len() == ranked@.len(),
        forall|i: int| 0 <= i < out@.len() ==> (#[trigger] out@[i])@ == ranked@[i].candidate.path@,
{
    let mut out: Vec<String> = Vec::new();
    let mut i: usize = 0;
    while i < ranked.len()
        invariant
            i <= ranked@.len(),
            out@.len() == i,
            forall|a: int| 0 <= a < i ==> (#[trigger] out@[a])@ == ranked@[a].candidate.path@,
        decreases ranked@.len() - i,
    {
        out.push(ranked[i].candidate.path.clone());
        i = i + 1;
    }
    out
}

/// The candidate that the menu entry `choice` stands for, if the menu gave
/// one and it is in range; none when the menu was cancelled.
pub fn take_choice(ranked: Vec<Ranked>, choice: Option<usize>) -> (r: Option<Ranked>)
    ensures
        match choice {
            Some(c) => if c < ranked@.len() {
                r is Some && r.unwrap()@ == ranked@[c as int]@
            } else {
                r is None
            },
            None => r is None,
        },
{
    match choice {
        Some(c) => {
            if c < ranked.len() {
                let mut ranked = ranked;
                Some(ranked.swap_remove(c))
            } else {
                None
            }
        }
        None => None,
    }
}

} // verus!
