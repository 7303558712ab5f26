//! Change tracking for the items of an OpenBar instance: an ordered item store,
//! the events that a new observation of an item raises, the text of the
//! notification that reports them, and the helpers of the OpenBar API client.

pub mod text;
pub mod model;
pub mod store;
pub mod config;
pub mod event;
pub mod tracking;
pub mod report;
pub mod apis;
pub mod openbar;
