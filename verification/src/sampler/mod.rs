//! Samplers: where an agent's metrics and events come from.

pub mod nvml;
pub mod synthetic;
pub mod tegra;

use vstd::prelude::*;

verus! {

/// Time between two samples at `hz`, in whole milliseconds. Rates under one a
/// second count as one.
pub fn period_ms(hz: u32) -> (ms: u64)
    ensures
        ms == 1000u64 / (if hz == 0 {
            1u64
        } else {
            hz as u64
        }),
{
    let rate: u32 = if hz == 0 {
        1
    } else {
        hz
    };
    (1000 / rate) as u64
}

/// Listens for what the injected library sends.
#[derive(Debug)]
pub struct CuptiReceiver {
    pub socket_path: String,
}

/// Reads profiling fields through DCGM.
#[derive(Copy, Clone, Debug, PartialEq, Eq, Structural)]
pub struct DcgmSampler {
    pub node_id: u32,
    pub metric_hz: u32,
}

/// The socket that the injected library connects to, unless told otherwise.
pub const DEFAULT_CUPTI_SOCKET: &'static str = "/tmp/perfweave.cupti.sock";

} // verus!
