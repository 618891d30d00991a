//! The tools of the server for agents: what they are asked, what they answer, and
//! which of them are allowed to change the vault.

pub mod laws;
pub mod links;
pub mod mutations;
pub mod params;
pub mod query;
pub mod schema;
pub mod server;
