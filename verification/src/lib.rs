//! Verified core of the Slatron TV scheduling and signage system.

pub mod auth;
pub mod blocks;
pub mod bumper;
pub mod context;
pub mod dj;
pub mod calendar;
pub mod catalog;
pub mod llm;
pub mod models;
pub mod node_config;
pub mod node_media;
pub mod node_playback;
pub mod node_schedule;
pub mod node_session;
pub mod rate_limit;
pub mod schedule;
pub mod security;
pub mod server_config;
pub mod text;
pub mod timing;
pub mod tts;
pub mod upkeep;
pub mod xml;
