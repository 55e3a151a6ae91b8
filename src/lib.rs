//! A fixed-capacity bit vector packed into 64-bit blocks, with conversion
//! to and from fixed-width unsigned integers and to binary text.

pub mod bitset;
pub mod convert;
pub mod laws;
pub mod word;

pub use bitset::BitSet;
pub use convert::{ConversionError, FixedWidth};
