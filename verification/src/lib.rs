//! The audio aggregation and speaker attribution engine of a voice
//! transcription assistant, with the rules of the service around it.
//!
//! The engine takes the events of a voice transport, keeps one buffer per
//! audio stream, cuts the audio into chunks of a fixed size, and attributes
//! every chunk to a speaker: the user that the transport announced, a user
//! that the roster of the voice channel lets it guess, or a placeholder that
//! is corrected once the user is known. It decides and never waits: every
//! operation hands back the effects that its caller has to carry out.

pub mod aggregator;
pub mod buffer;
pub mod captions;
pub mod chunking;
pub mod config;
pub mod events;
pub mod identity;
pub mod json;
pub mod laws;
pub mod links;
pub mod model;
pub mod roster;
pub mod shared_map;
pub mod summaries;
pub mod telemetry;
pub mod text;
pub mod transcription;
