//! Checks the dependency reports of JavaScript and Rust projects for
//! packages known to be vulnerable: `yarn why` for JavaScript, `cargo tree`
//! for Rust, against SemVer requirements.

pub mod repo;
pub mod text;
pub mod tree;
pub mod version;
pub mod yarn;

pub use repo::{Language, Package, PackageList, Repo, RepoList};
pub use tree::CargoChecker;
pub use version::{PackageVersion, Requirement, VersionError};
pub use yarn::{CheckError, JsChecker};
