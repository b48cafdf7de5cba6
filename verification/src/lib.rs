//! In-memory storage back end for a layered triple store: byte files,
//! a layer registry and a label registry, with their contracts.

pub mod storage;
