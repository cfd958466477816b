//! Verified core of a private low-latency streaming backend: rooms, their
//! participants and files, the ingest admission check, SRT watch links and
//! host metrics. The HTTP, WebSocket, database and filesystem plumbing lives
//! in the application around this crate and calls in here for every
//! decision.
pub mod access;
pub mod auth;
pub mod branding;
pub mod config;
pub mod crypto;
pub mod error;
pub mod events;
pub mod files;
pub mod hub;
pub mod ids;
pub mod live;
pub mod livekit;
pub mod metrics;
pub mod ome;
pub mod redaction;
pub mod rooms;
pub mod text;
pub mod time;
pub mod watch;
pub mod webhook;
