//! A programmable server that answers as an OpenAI-compatible endpoint would: the logic of it,
//! from the command line and the bytes of a request to the response and the pauses ahead of it.

pub mod admin;
pub mod audio_probe;
pub mod behavior;
pub mod capture;
pub mod codec;
pub mod config;
pub mod endpoints;
pub mod guarantees;
pub mod handlers;
pub mod json;
pub mod response;
pub mod responses;
pub mod router;
pub mod state;
pub mod text;
