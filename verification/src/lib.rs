//! Entity-Component-System data store: entity lifecycle management, per-type
//! component columns, a single-instance resource registry, and a query engine
//! that resolves the live entities holding a required set of component types.
//!
//! Component types and resource types are identified by `u64` type keys chosen
//! by the caller; the component and resource payloads are type parameters, so
//! a caller typically instantiates the store with one tagged enum per role.
//!
//! Shared and exclusive access to component cells and resource instances is
//! expressed through plain references, so conflicting borrows of one cell are
//! ruled out at compile time rather than detected at run time.

pub mod ecs;
pub mod entity;
pub mod input;
pub mod resource;
pub mod world;
