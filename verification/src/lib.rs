pub mod text;
pub mod config;
pub mod env_map;
pub mod pattern;
pub mod policy;
pub mod shell_environment;
pub mod snapshot;
pub mod capture;
pub mod resolve;
pub mod workdir;
pub mod populate_laws;
pub mod quote_laws;
pub mod snapshot_laws;
pub mod path_laws;
