pub mod api;
pub mod commands;
pub mod num;
pub mod sfc;
pub mod text;
