//! Verified core of a desktop thermostat client.
//!
//! The client shows live device state (temperature, CO2, heating) and lets the
//! user edit a small configuration that is pushed to a remote control API.
//! This crate holds the logic that is worth stating precisely:
//!
//! * the configuration data model and its two faces (the client form with an
//!   optional CO2 threshold, and the UI form with a separate toggle), with a
//!   proved round trip between them;
//! * the wire codec: the JSON texts exchanged with the control API and stored
//!   in the options file, encoded and parsed by verified functions;
//! * the debounce coordinator that turns a rapid burst of local edits into at
//!   most one outbound update per quiet window;
//! * reconciliation of server responses into the local store, proved
//!   idempotent;
//! * the event dispatcher that maps UI events to state changes and actions.
//!
//! I/O (HTTP, timers, files, the rendering toolkit) stays outside: the
//! surrounding binary feeds events in and interprets the returned actions.

pub mod config;
pub mod debounce;
pub mod codec;
pub mod handlers;
pub mod store;

