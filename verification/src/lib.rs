//! Domain model, mutation rules, persistence codec and report planning for a
//! multi-project to-do list. The state transformations are pure; file and PDF
//! output are left to the surrounding application.

pub mod codec;
pub mod models;
pub mod ops;
pub mod parse;
pub mod report;
pub mod roundtrip;
pub mod storage;
pub mod text;
