//! Dependency-injection component scheduler core for firmware initialization.
//!
//! Independently authored initialization routines ("components") declare, at
//! registration time, which pieces of shared configuration and service state
//! they read or write. The scheduler core uses those declarations to decide
//! which components are safe to run, and when, without a hand-written order:
//! a component whose declared parameters are not yet available simply reports
//! "did not run" and stays eligible for a later round, while conflicting
//! declarations within one component are rejected at initialization.

pub mod access;
pub mod base;
pub mod device_path;
pub mod error;
pub mod params;
pub mod service;
pub mod storage;
pub mod struct_component;
