//! Identifiers and the random source they are drawn from.

use rand::Rng;
use vstd::prelude::*;

verus! {

/// Opaque identifier that the initiating endpoint picks for a connection.
pub type ConnectionId = u64;

/// Number of a packet within a connection. The first one is drawn at
/// random; no number is used twice in one direction.
pub type PacketNumber = u32;

/// Tag of the wire-format draft in use.
pub type ProtocolVersion = u32;

/// The one wire-format draft that this endpoint speaks.
pub const DRAFT_10: ProtocolVersion = 0xff00_000a;

/// Versions are negotiated by exact match: there is no fallback.
pub open spec fn spec_version_supported(version: ProtocolVersion) -> bool {
    version == DRAFT_10
}

#[verifier::when_used_as_spec(spec_version_supported)]
pub fn version_supported(version: ProtocolVersion) -> (b: bool)
    ensures
        b == spec_version_supported(version),
{
    version == DRAFT_10
}

/// Draws 64 bits from `rand::thread_rng()` with `Rng::gen`. The generator is
/// seeded by the operating system, so nothing is known of the value.
#[verifier::external_body]
fn random_u64() -> (r: u64) {
    rand::thread_rng().gen()
}

/// A fresh connection id, uniform over all 64-bit values.
pub fn generate_connection_id() -> (id: ConnectionId) {
    random_u64()
}

/// A fresh initial packet number, uniform over all 32-bit values.
pub fn generate_packet_number() -> (number: PacketNumber) {
    packet_number_of(random_u64())
}

/// The packet number that a draw of 64 bits stands for: its high half.
pub open spec fn spec_packet_number_of(draw: u64) -> PacketNumber {
    (draw / 0x1_0000_0000) as u32
}

#[verifier::when_used_as_spec(spec_packet_number_of)]
pub fn packet_number_of(draw: u64) -> (number: PacketNumber)
    ensures
        number == spec_packet_number_of(draw),
{
    (draw / 0x1_0000_0000) as u32
}

/// Every packet number stands for the same count of draws, the 2^32 that
/// start with it: draws that are uniform give numbers that are uniform.
pub proof fn lemma_packet_numbers_balanced(draw: u64, number: PacketNumber)
    ensures
        spec_packet_number_of(draw) == number <==> number * 0x1_0000_0000 <= draw < (number + 1)
            * 0x1_0000_0000,
{
}

} // verus!
