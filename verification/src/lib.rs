//! Ownership and lifecycle of uniquely identified creature records, kept in a
//! key-value model: a per-owner doubly-linked index of record identifiers, a
//! record registry with ownership and pricing maps, and the state-transition
//! operations (create, breed, transfer, ask, buy, parameter updates) that
//! mutate them atomically.

pub mod kitties;
pub mod linked_item;
