//! Discrete-time simulation of single-processor CPU scheduling policies.
//!
//! A [`processor::Processor`] owns a fixed set of processes, advances a
//! virtual clock one tick at a time and asks its [`policy::Policy`] which
//! process occupies the processor next. Every tick is recorded as a
//! [`event::SchedulingEvent`].
pub mod process;
pub mod policy;
pub mod event;
pub mod model;
pub mod processor;
pub mod laws;
