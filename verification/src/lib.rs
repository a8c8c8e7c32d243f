//! A clipboard history library: captured clipboard payloads are normalized
//! into immutable entries with deterministic fingerprints, kept in a bounded,
//! newest-first, adjacent-duplicate-suppressing history, and searched by
//! exact substring or fuzzy match.

pub mod clipboard_item;
pub mod clipboard_manager;
pub mod monitor;
pub mod service;
pub mod storage;
pub mod text;
