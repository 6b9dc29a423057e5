use vstd::prelude::*;

verus! {

#[verifier::external_type_specification]
#[verifier::external_body]
pub struct ExIndex(thunderdome::Index);

/// The bits of an index, as `Index::to_bits` gives them: the generation in
/// the upper 32 bits, the slot in the lower.
pub uninterp spec fn index_bits(i: thunderdome::Index) -> u64;

/// `Index::from_bits`: succeeds exactly when the generation (the upper 32
/// bits) is not zero, and the index made gives the same bits back.
#[verifier::external_body]
pub(crate) fn index_from_bits(bits: u64) -> (res: Option<thunderdome::Index>)
    ensures
        res is Some <==> bits >= 0x1_0000_0000,
        res matches Some(i) ==> index_bits(i) == bits,
{
    thunderdome::Index::from_bits(bits)
}

} // verus!
