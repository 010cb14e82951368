//! Context rot prevention for coding-agent hooks.
//!
//! The library holds the logic of the transcript monitor and of its consumers:
//! counting the text bytes of a JSONL transcript delta, accumulating them into the
//! monitor's status, the re-injection tiers and throttle types, and the JSON
//! answer that a hook prints.
pub mod types;
pub mod parser;
pub mod output;
pub mod monitor;
