//! Static analysis of obfuscated text and bytes: detection, decoding adapters,
//! validation, and the record keeping around transform plans.

pub mod text;
pub mod codec;
pub mod analysis;
pub mod error;
pub mod info;
pub mod js;
pub mod outside;
pub mod probe;
pub mod detect;
pub mod transform;
pub mod isolation;
pub mod plan;
pub mod engine;
pub mod protocol;
pub mod modules;
pub mod workbench;
pub mod wiki;
pub mod report;
pub mod import;
pub mod capabilities;
pub mod sidecar;
pub mod markdown;
pub mod decodable;
pub mod folding;
pub mod recognition;
pub mod literals;
