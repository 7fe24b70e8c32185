//! A builder for boolean filter expressions over the attributes of a
//! transaction: sender, recipient, method selector and value.
//!
//! A filter is a tree. Its leaves are conditions, each a key with the raw
//! bytes the attribute is compared with; its inner nodes are AND/OR groups
//! with an ordered list of children. [`Filter`] grows such a tree one call at
//! a time and keeps track of the group that the next node goes under.

pub mod base64;
pub mod builder;
pub mod error;
pub mod parse;
pub mod tree;
pub mod value;

pub use builder::{BuilderState, Filter};
pub use error::FilterError;
pub use tree::{FilterKV, Node, Operator, Tree};
pub use value::{from_u256, U256};
