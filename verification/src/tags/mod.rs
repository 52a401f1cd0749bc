pub mod tag;
pub mod tr101;

pub use tag::{Tag, TagIterator, Tlv};
pub use tr101::Tr101Information;
