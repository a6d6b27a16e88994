pub mod agent;
pub mod cli;
pub mod embed;
pub mod error;
pub mod image;
pub mod laws;
pub mod mounts;
pub mod naming;
pub mod order;
pub mod paths;
pub mod process;
pub mod text;
