//! What the outside token and policy services hand back, as plain values.
use vstd::prelude::*;

verus! {

pub type TokenId = String;

/// A soul-bound token held by an account, as its registry lists it.
#[derive(PartialEq, Eq, Debug, Clone)]
pub struct OwnedToken {
    pub token: u64,
    pub metadata: TokenMetadata,
}

/// Attributes of a soul-bound token.
#[derive(PartialEq, Eq, Debug, Clone)]
pub struct TokenMetadata {
    pub class: u64,
    pub issued_at: Option<u64>,
    pub expires_at: Option<u64>,
    pub reference: Option<String>,
    pub reference_hash: Option<String>,
}

/// Metadata of a non-fungible token; the hashes are the decoded bytes.
#[derive(PartialEq, Eq, Debug, Clone)]
pub struct TokenMetadataCompliant {
    pub title: Option<String>,
    pub description: Option<String>,
    pub media: Option<String>,
    pub media_hash: Option<Vec<u8>>,
    pub copies: Option<u16>,
    pub issued_at: Option<String>,
    pub expires_at: Option<String>,
    pub starts_at: Option<String>,
    pub updated_at: Option<String>,
    pub extra: Option<String>,
    pub reference: Option<String>,
    pub reference_hash: Option<Vec<u8>>,
}

/// A non-fungible token as its contract reports it: the owner is the one the
/// contest checks.
#[derive(PartialEq, Eq, Debug, Clone)]
pub struct Token {
    pub token_id: String,
    pub owner_id: String,
    pub metadata: TokenMetadataCompliant,
    pub approved_account_ids: Vec<(String, u64)>,
    pub royalty: Vec<(String, u32)>,
}

} // verus!
