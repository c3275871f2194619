//! Reconciles the groups of an identity-provider realm with a registry that
//! maps each user to the paths of the groups the user belongs to.
//!
//! A run lists the top-level groups of the realm, keeps the configured root
//! groups, resolves their trees to any depth, fetches the members of every
//! group reached, and merges them into the registry, all or nothing. The
//! run itself does no input or output: [`keycloak::Keycloak::gather`] says
//! what to ask of the directory next, and the caller asks.

pub mod error;
pub mod group;
pub mod keycloak;
pub mod members;
pub mod reach;
pub mod registry;
pub mod resolver;
pub mod state;
