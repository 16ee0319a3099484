//! Reconciles a declared set of package requirements against the dependency
//! state that the manifests and lockfiles of a source tree record.
//!
//! For every candidate directory and every requirement `name@version`, the
//! library answers two questions — is the package referenced at all there,
//! and does some referenced version satisfy the required version or range —
//! and turns the answers into one ordered report plus a found list.
//!
//! The library works on plain byte strings: every name, version, path and
//! file content is a `Vec<u8>`, and every contract is stated over the
//! corresponding `Seq<u8>` views.

pub mod bytes;
pub mod version;
pub mod json;
pub mod scan;
pub mod yarn;
pub mod pnpm;
pub mod custom;
pub mod lockwalk;
pub mod requirements;
pub mod record;
pub mod manifest;
pub mod resolve;
pub mod dirs;
pub mod aggregate;
