pub mod client;
pub mod command;
pub mod history;
pub mod protocol;
pub mod registry;
pub mod session;
pub mod text;
