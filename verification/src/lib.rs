//! Verified core of LocalStream: pairing and credential rules, request
//! limiting, playback decisions, streaming ranges, LAN configuration and the
//! persisted record formats of the local-first media server.
use vstd::prelude::*;

pub mod auth;
pub mod compatibility;
pub mod database;
pub mod ip_text;
pub mod lan;
pub mod media;
pub mod media_jobs;
pub mod media_tools;
pub mod native_client;
pub mod net;
pub mod node_identity;
pub mod pairing;
pub mod playback;
pub mod probe;
pub mod range;
pub mod rate_limit;
pub mod service;
pub mod session;
pub mod text;
pub mod token;
pub mod transforms;

verus! {

} // verus!
