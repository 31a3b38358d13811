//! Forwarding of wallet account updates: a plugin side that filters and
//! normalises account notifications into rows, and an ingestor side that
//! batches the published rows and flushes them as bulk inserts.

pub mod batch;
pub mod plugin;
pub mod sink;
