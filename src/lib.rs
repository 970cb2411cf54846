//! Control plane of an orchestrator that places the functions of WebAssembly modules on a fleet
//! of network-attached devices.
//!
//! - `model`: devices, modules, manifests, deployments and their views.
//! - `store`: the key/value store that holds each kind of record under its name.
//! - `solver`: from a manifest and snapshots of the fleet, each device's configuration.
//! - `discovery`: how devices found on the network are merged into the known ones.
//! - `orchestrator`: the fleet state, the decisions of the event loop, and the handle that
//!   callers submit events through.
//! - `supervisor`: what the remote agent on a device has been told.
//! - `wire`: the text that tells a device its configuration.
//! - `guest`: helpers of the example modules that run on devices.

pub mod model;
pub mod store;
pub mod solver;
pub mod discovery;
pub mod orchestrator;
pub mod supervisor;
pub mod wire;
pub mod guest;
