//! Records that the credential store keeps beside the hashes.

use vstd::prelude::*;

verus! {

/// What a new conversation membership is created from.
pub struct ConvUserForCreate {
    pub conv_id: i64,
    pub user_id: i64,
}

/// Access to the conversation memberships table.
pub struct ConvUserBmc;

impl ConvUserBmc {
    /// The table that holds conversation memberships.
    pub const TABLE: &'static str = "conv_user";
}

} // verus!
