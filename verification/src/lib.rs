//! Verified core of `typship`, a package tool for Typst: package
//! specifications, listing and path resolution of locally installed
//! packages, CI matrix and workflow generation, registry archive URLs and
//! the request checks of the caching registry proxy.

pub mod commands;
pub mod generate;
pub mod host;
pub mod listing;
pub mod package;
pub mod pack;
pub mod pkgspec;
pub mod proxy;
pub mod registry;
pub mod table;
pub mod text;
