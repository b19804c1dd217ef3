//! A deep packet inspection data plane: frames are parsed down to layer 4,
//! classified into direction-independent flows, screened against a set of
//! regular expressions, and the accepted payloads of each flow are framed for
//! an append-only per-flow file.
pub mod flow;
pub mod packet;
pub mod flow_table;
pub mod rules;
pub mod filter;
pub mod store;
pub mod error;
pub mod stats;
