//! Event-sourced storage and search core for a case-management application.
//!
//! Events are appended to a log that numbers them; each event is applied to a
//! projection of resources (create, merge-patch, replace, delete); what a user
//! may see is derived from the `involved` lists inside the resources; and live
//! subscribers receive an authorized snapshot followed by authorized deltas.
pub mod json;
pub mod text;
pub mod schemas;
pub mod storage;
pub mod processor;
pub mod authz;
pub mod subscription;
pub mod search;
pub mod handlers;
pub mod auth;
pub mod authzen;
pub mod email;
pub mod graphql;
pub mod issues;
