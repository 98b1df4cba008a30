//! Building blocks of a ledger node: a batched ternary sponge hash, and
//! ledger entities with their byte encodings.
pub mod bct;
pub mod curlp;
pub mod lanes;
pub mod bytes;
pub mod error;
pub mod treasury;
pub mod address;
