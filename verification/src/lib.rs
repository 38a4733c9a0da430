//! A per-participant profile directory over an append-only,
//! content-addressed record store.
//!
//! Each participant publishes a mutable self-description (name, handle,
//! status, avatar) as a chain of immutable versions, indexed twice: once
//! under a shared discovery key so anyone can browse all participants, and
//! once under the owner's own identity for a direct lookup. Every publish
//! or update also fans a copy of the record out to all other known
//! participants, best effort.

pub mod lifecycle;
pub mod profile;
pub mod store;
