//! The gateway session became ready.
use vstd::prelude::*;

use super::Dispatch;

verus! {

/// The ready event is not handed to the plugins.
pub fn handle() -> (r: Option<Dispatch>)
    ensures
        r is None,
{
    None
}

} // verus!
