//! Building blocks of a small neural-network trainer.
//!
//! The crate holds the parts of the trainer that are about *where* numbers
//! go and *when* something happens: sliding windows, arg-max selection,
//! scatter and gather of gradients, flattening between feature maps and
//! vectors, one-hot targets, the update rules of the optimizers with their
//! ratios and counters, back-propagation through time, the chaining of
//! layers, and the train / validate driver. Every tensor is a fixed-size
//! array whose shape is part of its type, and everything is generic over the
//! element type: the arithmetic and the comparison on elements are the
//! caller's, and each contract states which applications of them produce
//! each result, and in which order.
pub mod activation;
pub mod layers;
pub mod models;
pub mod optimizers;
