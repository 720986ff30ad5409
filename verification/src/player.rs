//! The identity of one connected peer.

use uuid::Uuid;
use vstd::prelude::*;

verus! {

/// The server-side handle of one live peer.
///
/// A handle is its identifier and nothing else: the transport that reaches
/// the peer stays with whoever owns the socket and is looked up by this
/// identifier. Two handles are the same peer exactly when their identifiers
/// are equal.
#[derive(Clone, Copy, Debug, PartialEq, Eq, Hash, Structural)]
pub struct Player {
    uuid: u128,
}

impl View for Player {
    type V = u128;

    closed spec fn view(&self) -> u128 {
        self.uuid
    }
}

/// The bits of an identifier that carry the version and the variant.
pub const VERSION_AND_VARIANT_MASK: u128 = 0x0000_0000_0000_f000_c000_0000_0000_0000;

/// What those bits hold in a random (version 4) identifier.
pub const VERSION_4_VARIANT_1: u128 = 0x0000_0000_0000_4000_8000_0000_0000_0000;

/// Whether `id` is laid out as a random (version 4) identifier of the
/// standard variant.
pub open spec fn is_version_4(id: u128) -> bool {
    id & VERSION_AND_VARIANT_MASK == VERSION_4_VARIANT_1
}

/// Draws a random identifier with `uuid::Uuid::new_v4` and packs its sixteen
/// bytes, first byte highest, into one number with `Uuid::as_u128`.
///
/// The value comes from the operating system's random source, so nothing is
/// promised of it beyond the version and variant bits, which `new_v4` sets on
/// every identifier it returns. Two calls may return the same value. The call
/// does not return if the random source cannot be read.
#[verifier::external_body]
pub(crate) fn random_uuid() -> (id: u128)
    ensures
        is_version_4(id),
{
    Uuid::new_v4().as_u128()
}

impl Player {
    /// A handle for a newly connected peer, under a freshly drawn identifier.
    pub fn new() -> (player: Player)
        ensures
            is_version_4(player@),
    {
        Player { uuid: random_uuid() }
    }

    /// The handle of the peer known as `uuid`.
    pub fn from_uuid(uuid: u128) -> (player: Player)
        ensures
            player@ == uuid,
    {
        Player { uuid }
    }

    /// The identifier this handle was made with.
    pub fn uuid(&self) -> (uuid: u128)
        ensures
            uuid == self@,
    {
        self.uuid
    }

    /// Two handles are equal exactly when their identifiers are.
    pub proof fn lemma_identity(a: Player, b: Player)
        ensures
            a == b <==> a@ == b@,
    {
    }
}

} // verus!
