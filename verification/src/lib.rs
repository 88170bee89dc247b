//! Collaborative pixel canvas: the verified core of the server and of its
//! image-pushing client.

pub mod security;
pub mod text;
pub mod color;
pub mod settings;
pub mod errors;
pub mod canvas;
pub mod strmap;
pub mod events;
pub mod clock;
pub mod ident;
pub mod state;
pub mod shared;
pub mod push;
pub mod laws;
pub mod numparse;
pub mod push_args;
pub mod cache;
