//! A versioned package repository engine: content-addressable blob storage
//! with a semantic-version index behind `publish`/`resolve` operations, and a
//! JavaPoet-style builder for emitting Java source files.

pub mod cache;
mod checksum;
pub mod errors;
pub mod index;
pub mod java;
pub mod model;
pub mod objects;
pub mod package;
pub mod publish;
pub mod repository;
pub mod scheme;
mod text;
pub mod version;

pub use checksum::Checksum;
