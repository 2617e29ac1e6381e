use vstd::prelude::*;

use crate::messages::AuthPayload;

verus! {

/// An account address, held as the outside type.
#[verifier::external_type_specification]
#[verifier::external_body]
pub struct ExAddress(alloy::primitives::Address);

/// A fixed-width unsigned integer, held as the outside type.
#[verifier::external_type_specification]
#[verifier::external_body]
pub struct ExUint<const BITS: usize, const LIMBS: usize>(alloy::primitives::Uint<BITS, LIMBS>);

/// The signed-message authentication of a CLOB account.
#[derive(Debug)]
pub struct ClobAuth {
    pub address: alloy::primitives::Address,
    pub message: String,
    pub timestamp: String,
    pub nonce: alloy::primitives::U256,
}

/// Connection settings of a CLOB REST client.
#[derive(Debug)]
pub struct ClobClient {
    pub host: String,
    pub key: String,
    pub chain_id: u64,
    pub signature_type: u8,
    pub funder: alloy::primitives::Address,
    pub auth: AuthPayload,
}

} // verus!
