//! What the plugin manager decides from the plugins' answers.

use vstd::prelude::*;

verus! {

/// Whether a login goes ahead, given each plugin's answer: only if every
/// plugin allows it (with no plugins, it does).
pub fn pre_login_verdict(votes: &[bool]) -> (allow: bool)
    ensures
        allow == forall|i: int| 0 <= i < votes@.len() ==> #[trigger] votes@[i],
{
    let mut allow = true;
    let mut i: usize = 0;
    while i < votes.len()
        invariant
            i <= votes@.len(),
            allow == forall|j: int| 0 <= j < i ==> #[trigger] votes@[j],
        decreases votes.len() - i,
    {
        if !votes[i] {
            allow = false;
        }
        i = i + 1;
    }
    allow
}

} // verus!
