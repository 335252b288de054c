//! Read-only access to bridge transfer records: validation of listing
//! parameters, parameterised query planning, and mapping of fetched rows
//! into the public record and page shapes, with an in-memory table that
//! answers listings and lookups as the planned statements do.

pub mod error;
pub mod filter;
pub mod memory;
pub mod page;
pub mod plan;
pub mod record;
