//! Verified core of the agentplug host and runner.
#![allow(unused_imports)]
pub mod text;
pub mod json;
pub mod strmap;
pub mod broker;
pub mod broker_runs;
pub mod pool;
pub mod pool_runs;
pub mod path;
pub mod host_state;
pub mod guest_abi;
pub mod imports;
pub mod registry;
pub mod dispatch_origin;
pub mod install;
pub mod memory_pressure;
pub mod precompiled;
pub mod browser_engine;
pub mod exec_js;
pub mod prefixes;
pub mod oxibrowser_driver;
pub mod sessions;
pub mod browser;
pub mod chrome;
pub mod serve;
pub mod order;
pub mod download;
pub mod update;
pub mod clock;
pub mod daemon_config;
pub mod projects;
pub mod ownership;
pub mod spool;
pub mod claims;
pub mod status;
pub mod handoff;
pub mod daemon;
