use vstd::prelude::*;

use crate::identity::{ClientAddr, SenderAddr, Token};

verus! {

/// The axis a rate-limiting bucket is kept for.
#[derive(Debug, Hash, Clone, Copy, PartialEq, Eq, Structural)]
pub enum BucketKind {
    IP,
    Address,
    Token,
}

/// The identity a rate-limiting bucket is kept for.
#[derive(Debug, Hash, Clone, PartialEq, Eq)]
pub enum BucketValue {
    IP(ClientAddr),
    Address(SenderAddr),
    Token(Token),
}

/// The name of a rate-limiting bucket: its axis and its identity.
#[derive(Debug, Hash, Clone, PartialEq, Eq)]
pub struct BucketName {
    pub kind: BucketKind,
    pub value: BucketValue,
}

/// The shape of one leaky bucket's settings. The ban engine does not read it.
#[derive(Debug, Copy, Clone, PartialEq, Eq, Hash, Structural)]
pub struct BucketConfig {
    pub base_size: u64,
    pub leak_rate: u64,
    pub overflow_size: u64,
    pub retention: u64,
}

} // verus!
