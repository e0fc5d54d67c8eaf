//! Core of a real-time, interrupt-driven task scheduling framework for a
//! single processor core: a fixed set of statically declared tasks, each with
//! a static priority, dispatched by priority with priority-ceiling locking,
//! bounded per-priority spawn queues, and a wraparound-safe monotonic timer
//! service.

pub mod ceiling;
pub mod dispatch;
pub mod queue;
pub mod registry;
pub mod timer;
