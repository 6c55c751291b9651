//! Typed, chained-pointer memory access: an offset chain is resolved to an
//! address by adding each offset to a running address and reading through
//! every intermediate result.
mod local_member;

pub use local_member::{ChainError, LocalMember};
