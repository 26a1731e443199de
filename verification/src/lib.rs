//! A small inventory manager for electronic parts.
//!
//! Parts are classified by category, package and manufacturer. Every entity
//! is stored under an opaque synthetic id and addressed by a unique
//! human-chosen name, so renaming an entity never breaks references to it.

pub mod category;
pub mod comm;
pub mod db;
pub mod default_db;
pub mod errors;
pub mod manufacturer;
pub mod package;
pub mod part;
pub mod part_type;
pub mod transfer;
pub mod mem_db;
