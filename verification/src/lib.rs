//! Portfolio data-integrity layer: asset categories, category groupings and
//! holdings, each scoped to an owning account, stored with the lossy decimal
//! encoding the storage column uses, and mutated only through operations that
//! match both the entity id and the caller's account.

pub mod codec;
pub mod decimal;
pub mod error;
pub mod ids;
pub mod model;
pub mod repository;
pub mod schema;
pub mod service;
pub mod table;
pub mod validation;
