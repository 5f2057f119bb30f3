//! The serverbound packet a client sends when it opens or closes an advancements tab.
use vstd::prelude::*;

verus! {

/// What the client did in the advancements screen.
#[derive(Clone, Copy, Debug, PartialEq, Eq)]
pub struct SSeenAdvancements {
    pub action_id: i32,
}

} // verus!
