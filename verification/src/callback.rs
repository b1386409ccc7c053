//! NVTX markers from CUPTI callbacks.
//!
//! Push and mark calls become marker events. Pops carry no attributes: the
//! timestamps of ranges come from the activity records.

use crate::intern::{hash, name_id};
use crate::model::{Category, Event, MarkerDetail, Payload};
use crate::text::{append_hexadecimal, hexadecimal, same_text};
use vstd::prelude::*;
use vstd::string::StringExecFns;

verus! {

/// The NVTX event attributes that are read.
#[derive(Clone, Debug)]
pub struct NvtxEventAttributes {
    pub version: u16,
    pub size: u16,
    pub category: u32,
    pub color_type: u32,
    pub color_argb: u32,
    pub payload_type: u32,
    pub payload_u64: u64,
    pub message_type: u32,
    /// The text of the message, if there is one.
    pub message: Option<String>,
}

/// Arguments of a push or mark call. `domain` is the address of the domain
/// handle; calls on the default domain have none and leave it zero.
#[derive(Clone, Debug)]
pub struct NvtxDomainRangePushExParams {
    pub domain: u64,
    pub event_attr: Option<NvtxEventAttributes>,
}

/// A domain handle as text: its address in hexadecimal.
pub open spec fn handle_text(address: u64) -> Seq<char> {
    "0x"@ + hexadecimal(address as nat)
}

/// The call is a push or mark on the default domain.
pub open spec fn on_default_domain(function_name: Seq<char>) -> bool {
    function_name == "nvtxMarkEx"@ || function_name == "nvtxRangePushEx"@
}

/// The call is a push or mark on a named domain.
pub open spec fn on_named_domain(function_name: Seq<char>) -> bool {
    function_name == "nvtxDomainMarkEx"@ || function_name == "nvtxDomainRangePushEx"@
}

/// The domain id of a push or mark: zero for the default domain, else the hash
/// of the handle.
pub open spec fn domain_id(function_name: Seq<char>, handle: u64) -> u64 {
    if on_default_domain(function_name) {
        0
    } else {
        name_id(handle_text(handle))
    }
}

/// The id of a marker's message.
pub open spec fn message_id(attr: NvtxEventAttributes) -> u64 {
    match attr.message {
        Some(text) => name_id(text@),
        None => name_id("<nvtx>"@),
    }
}

/// The marker event of a push or mark.
pub open spec fn marker_event(
    ts_ns: u64,
    node_id: u32,
    gpu_id: u32,
    domain_id: u64,
    color_argb: u32,
    message_id: u64,
) -> Event {
    Event {
        ts_ns,
        duration_ns: 0,
        node_id,
        gpu_id,
        pid: 0,
        tid: 0,
        ctx_id: 0,
        stream_id: 0,
        category: Category::Marker,
        name_id: message_id,
        correlation_id: 0,
        parent_id: 0,
        payload: Some(Payload::Marker(MarkerDetail { domain_id, color_argb, message_id })),
    }
}

/// The event of a callback: none without arguments or attributes, and none for
/// calls that are neither push nor mark.
pub open spec fn translated(
    function_name: Seq<char>,
    params: Option<NvtxDomainRangePushExParams>,
    ts_ns: u64,
    node_id: u32,
    gpu_id: u32,
) -> Option<Event> {
    if params is None || !(on_default_domain(function_name) || on_named_domain(function_name)) {
        None
    } else {
        let p = params->0;
        match p.event_attr {
            None => None,
            Some(attr) => Some(
                marker_event(
                    ts_ns,
                    node_id,
                    gpu_id,
                    domain_id(function_name, p.domain),
                    attr.color_argb,
                    message_id(attr),
                ),
            ),
        }
    }
}

fn handle_id(address: u64) -> (id: u64)
    ensures
        id == name_id(handle_text(address)),
{
    let mut text = String::new();
    text.append("0x");
    append_hexadecimal(&mut text, address);
    assert(Seq::<char>::empty() + "0x"@ =~= "0x"@);
    hash(text.as_str())
}

/// Turns an NVTX callback into an event.
pub fn translate_nvtx_callback(
    function_name: &str,
    params: Option<&NvtxDomainRangePushExParams>,
    ts_ns: u64,
    node_id: u32,
    gpu_id: u32,
) -> (event: Option<Event>)
    ensures
        event == translated(
            function_name@,
            match params {
                Some(p) => Some(*p),
                None => None,
            },
            ts_ns,
            node_id,
            gpu_id,
        ),
{
    let p = match params {
        Some(p) => p,
        None => {
            return None;
        },
    };
    let default_domain = same_text(function_name, "nvtxMarkEx") || same_text(
        function_name,
        "nvtxRangePushEx",
    );
    let named_domain = same_text(function_name, "nvtxDomainMarkEx") || same_text(
        function_name,
        "nvtxDomainRangePushEx",
    );
    if !default_domain && !named_domain {
        return None;
    }
    let attr = match &p.event_attr {
        Some(attr) => attr,
        None => {
            return None;
        },
    };
    let domain_id: u64 = if default_domain {
        0
    } else {
        handle_id(p.domain)
    };
    let message_id: u64 = match &attr.message {
        Some(text) => hash(text.as_str()),
        None => hash("<nvtx>"),
    };
    Some(
        Event {
            ts_ns,
            duration_ns: 0,
            node_id,
            gpu_id,
            pid: 0,
            tid: 0,
            ctx_id: 0,
            stream_id: 0,
            category: Category::Marker,
            name_id: message_id,
            correlation_id: 0,
            parent_id: 0,
            payload: Some(
                Payload::Marker(MarkerDetail { domain_id, color_argb: attr.color_argb, message_id }),
            ),
        },
    )
}

} // verus!
