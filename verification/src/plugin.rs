//! The LADSPA plugin: what it exposes to a host and how it runs.

pub mod control;
pub mod dbus;
pub mod descriptor;
pub mod ident;
pub mod instance;
pub mod latency;
pub mod logging;
pub mod queue;
pub mod run;
pub mod worker;
