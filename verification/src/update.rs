//! The one mutation of a run: replacing the matched block's hostname.

use vstd::prelude::*;

use crate::split::{BlockModel, SplitLines};

verus! {

/// Replace the block's hostname with `new_hostname` when it differs from
/// the current value.  Returns whether anything changed: on `false` the
/// partition is untouched and the caller reports the no-change outcome
/// instead of rewriting the file.
pub fn apply_hostname_update(parsed: &mut SplitLines, new_hostname: &str) -> (changed: bool)
    ensures
        changed == (old(parsed)@.hostname != new_hostname@),
        changed ==> final(parsed)@ == (BlockModel { hostname: new_hostname@, ..old(parsed)@ }),
        !changed ==> *final(parsed) == *old(parsed),
{
    let new_owned = String::from_str(new_hostname);
    if parsed.hostname == new_owned {
        false
    } else {
        parsed.hostname = new_owned;
        proof {
            assert(parsed@ =~= (BlockModel { hostname: new_hostname@, ..old(parsed)@ }));
        }
        true
    }
}

} // verus!
