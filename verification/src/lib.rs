//! Log monitoring: configured regular expressions pick values out of log
//! files, the values travel over channels and are batched into records for
//! storage.
#![allow(non_snake_case)]

pub mod compiled;
pub mod pattern;
pub mod logreader;
pub mod channel;
pub mod config;
pub mod filehandler;
pub mod recordprocessor;
pub mod mongointerface;
