//! HyParView partial-view membership protocol: wire messages, peer views and
//! the event handlers that keep them.

pub mod config;
pub mod hyparview;
pub mod net;
pub mod random;
pub mod shipper;
pub mod text;
