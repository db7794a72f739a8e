//! Discriminators for named instructions.
//!
//! A discriminator is the first eight bytes of the SHA-256 digest of
//! `namespace:name`. The batch functions compute one for every named entry of
//! an interface description's `instructions` list and collect them in a
//! mapping from each name to its discriminator.

pub mod batch;
pub mod discriminator;
pub mod json;
pub mod mapping;
pub mod normalize;
pub mod parse;

pub use crate::batch::{process_document, process_instructions};
pub use crate::discriminator::get_hash;
pub use crate::mapping::to_pretty_json;
pub use crate::normalize::camel_to_snake_case;
