//! A multi-tenant project-management core: administrators register as users,
//! each owning groups, each group owning projects, each project owning member
//! records and a set of managed canisters. Every mutation passes a
//! role-based authority check scoped to the entity being mutated, and every
//! membership change keeps a reverse relation index (which principals were
//! invited into which projects) consistent with the forward ownership tree.

pub mod authority;
pub mod errors;
pub mod group;
pub mod member;
pub mod principal;
pub mod project;
pub mod registry;
pub mod table;
pub mod types;
pub mod user;
pub mod util;
