//! In-memory store for daily step counts, a single step goal and issued
//! client tokens, with what each request does stated and proved.
//!
//! - `order`: the text order that date ranges are filtered by.
//! - `steps`: step records, one per date, and the range query.
//! - `goal`: the single goal slot.
//! - `tokens`: issued tokens, written as hyphenated UUIDs.
//! - `service`: one operation per request, on the collection it touches.
pub mod order;
pub mod steps;
pub mod goal;
pub mod tokens;
pub mod service;
