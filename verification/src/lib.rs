//! Git tagging, release, status and bundle-publishing logic for envoy
//! repositories, with contracts proved by Verus.

pub mod glob;
pub mod text;
pub mod error;

pub use error::EngitError;
pub mod semver;

pub use semver::SemVer;
pub mod git;
pub mod tag;
pub mod release;
pub mod status;
pub mod web;
pub mod search;
pub mod editor;
pub mod cleanup;
pub mod changelog;
pub mod path;
pub mod publish;
pub mod walk;
pub mod staging;
pub mod framework;
pub mod cache;
pub mod github;
pub mod pull;
pub mod cli;
