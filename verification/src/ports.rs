//! Default TCP ports, clear of Prometheus, Grafana and Jaeger.

use vstd::prelude::*;

verus! {

pub const API_HTTP: u16 = 7777;

pub const COLLECTOR_GRPC: u16 = 7778;

pub const CLICKHOUSE_NATIVE: u16 = 9000;

pub const CLICKHOUSE_HTTP: u16 = 8123;

} // verus!
