//! Verified core of a self-hosted geospatial publishing server.
//!
//! Uploaded vector datasets are validated, ingested into an embedded
//! analytical SQL engine through a deterministic state machine, and served
//! as Mapbox Vector Tiles, privately per file id and publicly by slug.
//! This crate holds the logic of that pipeline — validators, the identifier
//! normalizer, the catalog state machine, tile SQL synthesis, the
//! publication registry, the password and session substrate — each function
//! with a contract checked by Verus. The surrounding process (HTTP, disk,
//! the SQL engine itself) drives these functions from outside.

pub mod auth;
pub mod catalog;
pub mod config;
pub mod errors;
pub mod extension;
pub mod graph;
pub mod graph_verify;
pub mod ident;
pub mod import;
pub mod mbtiles;
pub mod models;
pub mod password;
pub mod publication;
pub mod session;
pub mod strutil;
pub mod tiles;
pub mod upload;
pub mod validation;
