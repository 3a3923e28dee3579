//! Connection identifiers: the 128-bit values of `uuid::Uuid`s.

use vstd::prelude::*;
use crate::endian::{be_bytes, be_value};

verus! {

/// The bits that a version-4 UUID fixes: the version nibble and the two
/// variant bits.
pub open spec fn is_random_uuid_value(id: u128) -> bool {
    id & 0xF000_C000_0000_0000_0000u128 == 0x4000_8000_0000_0000_0000u128
}

/// A fresh random connection id, from `uuid::Uuid::new_v4`, as its 128-bit
/// value (`Uuid::as_u128`). The value is random; what the contract states is
/// only what `new_v4` fixes in every outcome: the version nibble (4) and the
/// RFC 4122 variant bits.
#[verifier::external_body]
pub(crate) fn new_connection_id() -> (id: u128)
    ensures
        is_random_uuid_value(id),
{
    uuid::Uuid::new_v4().as_u128()
}

/// The 16 bytes of a UUID, from `uuid::Uuid::from_u128` and `Uuid::as_bytes`:
/// the value's bytes, most significant first.
#[verifier::external_body]
pub(crate) fn uuid_bytes(id: u128) -> (bytes: Vec<u8>)
    ensures
        bytes@ == be_bytes(id as nat, 16),
{
    uuid::Uuid::from_u128(id).as_bytes().to_vec()
}

/// A UUID read from a byte slice with `uuid::Uuid::from_slice`, as its 128-bit
/// value: `None` when the slice is not exactly 16 bytes long, otherwise the
/// bytes read most significant first.
#[verifier::external_body]
pub(crate) fn uuid_from_slice(bytes: &[u8]) -> (id: Option<u128>)
    ensures
        bytes@.len() == 16 ==> id == Some(be_value(bytes@) as u128),
        bytes@.len() != 16 ==> id is None,
{
    match uuid::Uuid::from_slice(bytes) {
        Ok(u) => Some(u.as_u128()),
        Err(_) => None,
    }
}

} // verus!
