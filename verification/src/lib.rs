//! The decisions of two tools that keep a `strfry` relay a live directory of ContextVM servers.
//!
//! The cleaner probes the servers that have announced themselves on the local relay and removes
//! everything by those that have failed several rounds in a row. The crawler looks for announcements
//! on other relays, probes the servers, and brings in what belongs to the announcements of those
//! that are alive.
//!
//! What the tools decide stands here; the program around it talks to relays, runs `strfry` and reads
//! and writes files. Where the two alternate, a type of this library says what is to be done next
//! and takes note of what has come of it.

pub mod text;
pub mod number;
pub mod sorted;
pub mod outside;
pub mod args;
pub mod schedule;
pub mod relay_list;
pub mod probe;
pub mod strfry;
pub mod state_file;
pub mod cleaner;
pub mod streak;
pub mod discovery;
pub mod download;
pub mod crawler;
