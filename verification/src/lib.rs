//! A topic-based publish/subscribe notification registry.
//!
//! The registry maps a product type (a topic key) to the ordered set of
//! subscriber callback URLs registered under it. Subscribing is idempotent,
//! unsubscribing an absent pair is reported as an error, and publishing
//! walks the subscribers of a topic in insertion order, recording a
//! per-subscriber delivery outcome. The delivery itself is I/O and is left
//! to the caller: a [`delivery::Publication`] hands out the targets one by
//! one and collects the outcomes into a [`delivery::DeliveryReport`].

pub mod delivery;
pub mod errors;
pub mod laws;
pub mod registry;
pub mod validate;
