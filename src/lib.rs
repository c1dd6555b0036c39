//! A local content-addressed file repository: sharded object locations,
//! a durable path index, change detection and the repository façade.
pub mod chunker;
pub mod repofile;
pub mod objects;
pub mod index;
pub mod paths;
pub mod pathclassifier;
pub mod repository;
pub mod repostatus;
