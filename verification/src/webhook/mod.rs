//! The layer below the webhook listener: signatures of deliveries, the manifest
//! of a repository, and what a delivery makes of it.

pub mod listener;
pub mod manifest;
pub mod signature;
pub mod translate;
