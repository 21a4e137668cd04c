//! A versioned, lock-coordinated key-value state layer over a remote store.
//!
//! The crate verifies the state engine itself: the binary value codec, the
//! namespace key formats, the local write-through cache, the bounded-retry
//! lock coordinator, the atomic versioned write planner, and the accessor
//! that composes them. The remote store and the distributed lock primitive
//! are outside collaborators: an embedding driver performs their calls and
//! feeds the observed outcomes back into the verified step functions here.

pub mod accessor;
pub mod cache;
pub mod codec;
pub mod errors;
pub mod float_text;
pub mod keys;
pub mod lock;
pub mod num;
pub mod state_value;
pub mod temp_value;
pub mod writer;
