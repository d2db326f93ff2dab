//! Subtree manipulation for content-addressed repository trees: moving
//! content between path prefixes, finding the commits that touched a prefix,
//! reading and writing provenance trailers in commit descriptions, and the
//! decisions behind fetching from and pushing to other repositories.
pub mod repo_path;
pub mod tree;
pub mod trailer;
pub mod metadata;
pub mod backend;
pub mod git_backend;
pub mod store;
pub mod prefix;
