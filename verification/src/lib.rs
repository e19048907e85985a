//! A broadcast notification registry: consumers subscribe to a stream of
//! values and receive every value published after their subscription, with
//! per-subscriber bounded FIFO buffering and an "observed value" wrapper that
//! combines a last-known-value cache with the same fan-out.
//!
//! `chobservable` holds the core registry as a sequential state machine:
//! registration, removal, and a resumable fan-out step. An async runtime
//! drives the step function from outside the library, performing the actual
//! suspension when a subscriber's queue is full.
//!
//! `observable` and `observed_value` hold the single-threaded callback
//! variant of the same idea, where registered observers are notified
//! directly instead of through queues.

pub mod chobservable;
pub mod observable;
pub mod observed_value;
