//! Verified core of phone-control: locating the device tools, bootstrapping a
//! scrcpy session, leasing devices to CI tasks and recording video streams.
//!
//! Everything here is pure computation over plain values. Processes, sockets,
//! files and the HTTP server live in the surrounding application, which hands
//! results in and carries out the actions that come back.
pub mod text;
pub mod paths;
pub mod binaries;
pub mod wire_format;
pub mod scrcpy_client;
pub mod bootstrap;
pub mod log_pump;
pub mod recording;
pub mod leases;
pub mod devices;
pub mod control_api;
