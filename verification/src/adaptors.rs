//! The adaptors: each wraps one or two iterators and redefines the traversal
//! by wrapping the consumer that it is driven with.
pub mod chain;
pub mod cloned;
pub mod copied;
pub mod enumerate;
pub mod filter;
pub mod filter_map;
pub mod flat_map;
pub mod inspect;
pub mod map;
pub mod skip;
pub mod take;
