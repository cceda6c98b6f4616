//! The CPU capability tokens the x86 kernels take.
//!
//! A token is archmage's proof that the executing CPU has a feature tier.
//! The kernels here carry the token they were written for, so that a caller
//! that selected a tier keeps naming it; the wider tiers hand their
//! remainders to the narrower kernels through archmage's guaranteed
//! downgrades.

use archmage::{X64V1Token, X64V2Token, X64V3GfniCryptoToken, X64V3Token, X64V4Token, X64V4xToken};
use vstd::prelude::*;

verus! {

/// archmage's x86-64-v1 token (SSE2 and below).
#[verifier::external_type_specification]
#[verifier::external_body]
pub struct ExX64V1Token(X64V1Token);

/// archmage's x86-64-v2 token (SSE4.2 and below).
#[verifier::external_type_specification]
#[verifier::external_body]
pub struct ExX64V2Token(X64V2Token);

/// archmage's x86-64-v3 token (AVX2 and below).
#[verifier::external_type_specification]
#[verifier::external_body]
pub struct ExX64V3Token(X64V3Token);

/// archmage's x86-64-v3 token with GFNI and the carry-less/AES extensions.
#[verifier::external_type_specification]
#[verifier::external_body]
pub struct ExX64V3GfniCryptoToken(X64V3GfniCryptoToken);

/// archmage's x86-64-v4 token (AVX-512F/BW/CD/DQ/VL and below).
#[verifier::external_type_specification]
#[verifier::external_body]
pub struct ExX64V4Token(X64V4Token);

/// archmage's x86-64-v4 token with the AVX-512 extensions (GFNI among them).
#[verifier::external_type_specification]
#[verifier::external_body]
pub struct ExX64V4xToken(X64V4xToken);

/// `X64V3Token::v2`: archmage's downgrade of an AVX2 token to the SSE4.2
/// tier it implies. Tokens carry no data, so nothing is stated of the result.
#[verifier::external_body]
pub(crate) fn v2_of_v3(token: X64V3Token) -> X64V2Token {
    token.v2()
}

} // verus!
