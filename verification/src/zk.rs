//! The state after a block that carries nothing but a proof of knowledge.

use vstd::prelude::*;

verus! {

/// The root of the state after the block: where the proof of the block holds,
/// the last byte of the root is set to one, and else the state stays as it
/// is.
pub fn post_state_root(pre_state_root: [u8; 32], proof_valid: bool) -> (post: [u8; 32])
    ensures
        proof_valid ==> post@ == pre_state_root@.update(31, 1u8),
        !proof_valid ==> post@ == pre_state_root@,
{
    let mut post: [u8; 32] = pre_state_root;
    if proof_valid {
        post[31] = 1;
    }
    post
}

} // verus!
