//! A personal time-tracking core: named tags, tasks, and timed events that
//! link one task to any number of tags over an open or closed interval.
//!
//! The heart of the crate is the event lifecycle: starting an event (with
//! referential validation and an all-or-nothing multi-row write), stopping
//! it (an atomic conditional transition that computes the duration), and
//! listing the currently-open events with their task and tags attached.
//! Every operation carries a contract over the store model in
//! [`store::StoreView`], and the laws relating the operations are proved in
//! [`laws`].

pub mod laws;
pub mod lifecycle;
pub mod model;
pub mod store;
