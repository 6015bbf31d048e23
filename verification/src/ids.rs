use vstd::prelude::*;

verus! {

/// Whether a number has the layout of a random identifier: version 4 in the
/// version field and the RFC 4122 marker in the variant field.
pub open spec fn is_random_id(id: u128) -> bool {
    (id >> 76) & 0xf == 4 && (id >> 62) & 0x3 == 2
}

/// A random identifier is never the nil identifier.
pub proof fn lemma_random_id_not_nil(id: u128)
    requires
        is_random_id(id),
    ensures
        id != 0,
{
    assert((id >> 76) & 0xf == 4 ==> id != 0) by (bit_vector);
}

/// Draws a new identifier with `uuid::Uuid::new_v4` and hands it out as the
/// 128-bit number that `Uuid::as_u128` gives for it. Trusted: the generator
/// sets the version and variant fields of every identifier it returns;
/// nothing else is known of the value, which comes from the system's random
/// source. The generator aborts if that source cannot be read.
#[verifier::external_body]
pub(crate) fn fresh_id() -> (id: u128)
    ensures
        is_random_id(id),
{
    uuid::Uuid::new_v4().as_u128()
}

/// `uuid::Uuid::is_nil` on the identifier that `Uuid::from_u128` builds from
/// the number. Trusted: the identifier's sixteen bytes are the number's bytes,
/// and it is nil exactly when all of them are zero.
#[verifier::external_body]
pub(crate) fn id_is_nil(id: u128) -> (nil: bool)
    ensures
        nil == (id == 0),
{
    uuid::Uuid::from_u128(id).is_nil()
}

} // verus!
