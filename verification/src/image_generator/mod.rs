//! Image generation: requests, providers and what is made of their replies.
pub mod aihorde_models;
pub mod commands;
pub mod jobs;
pub mod prompt;
pub mod provider_adapter;
pub mod types;
