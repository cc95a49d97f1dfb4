//! Scaffolding of multi-crate workspaces: the rules by which crate
//! specifications are read, manifests are written and patched, and the
//! toolchain steps that follow are judged.
pub mod cli;
pub mod manifest;
pub mod registry;
pub mod text;
pub mod toolchain;
pub mod workspace;
