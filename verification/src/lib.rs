//! Architecture analysis core: parsing of process and socket tables,
//! the service graph with its per-edge and per-port statistics, and the
//! decisions behind the live view.

pub mod analyzer;
pub mod cli;
pub mod collector;
pub mod order;
pub mod renderer;
pub mod tap;
pub mod text;
