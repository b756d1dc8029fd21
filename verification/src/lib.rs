//! Tenant access control: roles, their permissions, and the members that hold
//! them, with the rules that keep every tenant managed and every manager
//! within the permissions they hold.
//!
//! - `model`: the data the server and the admin pages exchange.
//! - `validation`: the shape of role ids, permissions and display names.
//! - `view`: what the admin pages see of a tenant.
//! - `mutation`: the checked, transactional changes to a tenant.
//! - `effects`: what the committed changes leave in a tenant.
//! - `routes`: who may call the API and how refusals are answered.
//! - `client`: what the admin pages compute.
//! - `text`: characters, order, trimming and de-duplication of strings.
//! - `error`: the refusals and their messages.
pub mod client;
pub mod effects;
pub mod error;
pub mod model;
pub mod mutation;
pub mod routes;
pub mod text;
pub mod validation;
pub mod view;
