//! Verified core of PerfWeave: clock alignment, metric rings, ingest routing,
//! record parsing and query building for GPU observability.

pub mod activity;
pub mod agent_laws;
pub mod arrow_tile;
pub mod callback;
pub mod clock;
pub mod clock_laws;
pub mod clock_order;
pub mod clock_sync;
pub mod config;
pub mod doctor;
pub mod fast_ring;
pub mod filters;
pub mod graphql;
pub mod imports;
pub mod ingest;
pub mod ingest_laws;
pub mod intern;
pub mod keyed;
pub mod line;
pub mod live;
pub mod lod;
pub mod migrations;
pub mod model;
pub mod order;
pub mod pm;
pub mod ports;
pub mod query_laws;
pub mod replay;
pub mod ring;
pub mod rpc_server;
pub mod sampler;
pub mod sink;
pub mod skew;
pub mod spike_detect;
pub mod spike_laws;
pub mod store_laws;
pub mod table;
pub mod text;
pub mod text_laws;
pub mod timeline;
pub mod timeline_laws;
pub mod transport;
pub mod uploader;
