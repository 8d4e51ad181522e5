//! An incremental static-site build pipeline, verified.

pub mod cache;
pub mod config;
pub mod download;
pub mod generator;
pub mod ident;
pub mod manifest;
pub mod order;
pub mod records;
pub mod render;
pub mod resolve;
pub mod site;
pub mod text;
pub mod walk;

pub use cache::RenderCache;
pub use config::Config;
pub use generator::Generator;
pub use ident::Timestamp;
pub use manifest::{DocumentMeta, Manifest, Posts};
pub use text::sanitize;
