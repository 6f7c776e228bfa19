//! Language-server enrichment of an indexed corpus: where names lie in the source,
//! what a server's answers say, and which requests a pass makes.
pub mod enrich;
pub mod hover;
pub mod position;
pub mod target;
pub mod wire;
