//! The responders that render a file instead of streaming it.

pub mod markdown;
