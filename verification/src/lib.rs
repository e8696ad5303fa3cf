//! The decisions of a chat application: how a prompt fits into a context window, what image
//! providers are asked and what is made of their replies, and how characters of a catalogue are
//! found and imported.
pub mod chat;
pub mod chub;
pub mod context_window;
pub mod executor;
pub mod fraction;
pub mod image_generator;
pub mod json;
pub mod model_metadata;
pub mod order;
pub mod pairs;
pub mod stamp;
pub mod text;
pub mod text_map;
