//! Dependency version checking across Maven and npm ecosystems: the data model,
//! the filters, the POM and `package.json` text processing, and the output
//! formatting, each with a machine-checked contract.

pub mod text;
pub mod constants;
pub mod model;
pub mod glob;
pub mod filter;
pub mod audit;
pub mod error;
pub mod xml;
pub mod props;
pub mod pom;
pub mod pom_writer;
pub mod discovery;
pub mod version;
pub mod maven;
pub mod tools;
pub mod paths;
pub mod npm;
pub mod output;
pub mod command;
pub mod updater;
pub mod summary;
pub mod sorting;
pub mod package_json;
