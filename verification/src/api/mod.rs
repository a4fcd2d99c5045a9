pub mod error;
pub mod models;
pub mod server;
pub mod registry;
pub mod state;
pub mod routes;
