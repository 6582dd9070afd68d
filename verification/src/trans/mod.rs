pub mod client;
pub mod handle_post;
pub mod server;
