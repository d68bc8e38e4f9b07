//! Client identity: each session runs under a fresh random id, used for
//! role election and for recognising self-echoed signaling messages.

use vstd::prelude::*;

verus! {

/// Relies on `uuid::Uuid::new_v4` and its `Display` form: a fresh random
/// version-4 UUID, rendered in the hyphenated form of 36 characters.
/// Nothing more is assumed of a random value.
#[verifier::external_body]
fn fresh_client_id() -> (r: String)
    ensures
        r@.len() == 36,
{
    uuid::Uuid::new_v4().to_string()
}

/// What identifies one signaling cycle's participant: the room it announces
/// itself to and the id it elected for itself.
pub struct SessionIdentity {
    pub room_id: String,
    pub local_client_id: String,
}

impl SessionIdentity {
    /// Starts a session identity for a room: the client id is drawn fresh,
    /// so ids from older sessions of this process are never reused.
    pub fn new(room_id: String) -> (r: SessionIdentity)
        ensures
            r.room_id@ == room_id@,
            r.local_client_id@.len() == 36,
    {
        SessionIdentity { room_id, local_client_id: fresh_client_id() }
    }
}

} // verus!
