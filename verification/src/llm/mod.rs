pub mod client;

pub use client::ChatMessage;
