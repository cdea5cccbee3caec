//! Core logic of a desktop control panel for a package manager and a
//! container tool: reading the package manager's listings into a catalog of
//! packages grouped by repository, and deciding how to launch a container.

pub mod text;
pub mod repository;
pub mod error;
pub mod catalog;
pub mod container;
