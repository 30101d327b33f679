//! Interpretation of browser remote-debugging protocol responses: page
//! targets, process-id resolution, per-process CPU-time and private-memory
//! figures, and heap usage.
//!
//! The socket exchanges themselves live outside the library; the functions
//! here turn the plain values read off the wire into classified, unit-checked
//! records, and build the request lines the protocol expects.

use vstd::prelude::*;
use vstd::string::StringSliceAdditionalSpecFns;
use crate::models::ProcKind;
use crate::text::{
    lower_byte, lower_bytes, vec_u8_eq, contains_bytes, spec_contains_bytes, spec_dec_str,
    dec_string,
};

verus! {

/// One inspectable target as listed by the debug endpoint.
#[derive(Clone, Debug, PartialEq)]
pub struct CdpTarget {
    pub id: String,
    pub title: String,
    /// "page", "iframe", "service_worker", ...
    pub kind: String,
    pub url: String,
    pub ws_url: Option<String>,
}

/// A page's JS heap usage.
#[derive(Clone, Copy, Debug, PartialEq, Eq, Structural)]
pub struct HeapUsage {
    pub used_size: u64,
    pub total_size: u64,
}

/// One browser-internal process as reported by the aggregate process-info
/// query: cumulative CPU time in milliseconds, the disambiguated private
/// memory in bytes (when plausible), and its classification.
#[derive(Clone, Copy, Debug, PartialEq, Eq, Structural)]
pub struct BrowserProcessInfo {
    pub cpu_time_milli: u64,
    pub private_mem_bytes: Option<u64>,
    pub proc_type: ProcKind,
}

/// The client side of the debug-protocol conversations. The socket I/O lives
/// outside the library; these functions interpret what came back.
pub struct CdpClient;

/// Largest total-memory figure the disambiguation accepts, so that four times
/// it is still representable.
pub const MAX_TOTAL_MEMORY: u64 = 0x3FFF_FFFF_FFFF_FFFF;

/// The classification of a raw protocol process-type string: exact matches
/// for the four main kinds after ASCII lowercasing; service-like names
/// ("network", "storage", "service") fold into Utility; anything else is
/// Other.
pub open spec fn spec_classify(bytes: Seq<u8>) -> ProcKind {
    let low = bytes.map_values(|b: u8| lower_byte(b));
    if low == "gpu".spec_bytes() {
        ProcKind::Gpu
    } else if low == "renderer".spec_bytes() {
        ProcKind::Renderer
    } else if low == "browser".spec_bytes() {
        ProcKind::Browser
    } else if low == "utility".spec_bytes() {
        ProcKind::Utility
    } else if spec_contains_bytes(low, "network".spec_bytes()) || spec_contains_bytes(
        low,
        "storage".spec_bytes(),
    ) || spec_contains_bytes(low, "service".spec_bytes()) {
        ProcKind::Utility
    } else {
        ProcKind::Other
    }
}

/// Classify a raw protocol process-type string.
pub fn classify_process_kind(raw: &str) -> (r: ProcKind)
    ensures
        r == spec_classify(raw.spec_bytes()),
{
    let low = lower_bytes(raw);
    if vec_u8_eq(&low, &"gpu".as_bytes_vec()) {
        ProcKind::Gpu
    } else if vec_u8_eq(&low, &"renderer".as_bytes_vec()) {
        ProcKind::Renderer
    } else if vec_u8_eq(&low, &"browser".as_bytes_vec()) {
        ProcKind::Browser
    } else if vec_u8_eq(&low, &"utility".as_bytes_vec()) {
        ProcKind::Utility
    } else if contains_bytes(&low, &"network".as_bytes_vec()) || contains_bytes(
        &low,
        &"storage".as_bytes_vec(),
    ) || contains_bytes(&low, &"service".as_bytes_vec()) {
        ProcKind::Utility
    } else {
        ProcKind::Other
    }
}

/// The private-memory figure resolved to bytes, if any interpretation is
/// plausible.
///
/// The protocol's documented unit is KiB, but some builds emit bytes. An
/// interpretation is plausible when its byte value does not exceed 4x total
/// system memory; when both are plausible the documented KiB reading wins;
/// when neither is, the figure is reported unknown rather than guessed.
pub open spec fn spec_private_mem(raw: u64, total: u64) -> Option<u64> {
    let plaus_kib = raw * 1024 <= 4 * total;
    let plaus_bytes = raw <= 4 * total;
    if plaus_kib {
        Some((raw * 1024) as u64)
    } else if plaus_bytes {
        Some(raw)
    } else {
        None
    }
}

pub fn disambiguate_private_memory(raw: u64, total: u64) -> (r: Option<u64>)
    requires
        total <= MAX_TOTAL_MEMORY,
    ensures
        r == spec_private_mem(raw, total),
{
    let kib: u128 = (raw as u128) * 1024;
    let cap: u128 = 4 * (total as u128);
    if kib <= cap {
        Some((kib) as u64)
    } else if (raw as u128) <= cap {
        Some(raw)
    } else {
        None
    }
}

impl CdpClient {
    /// Interpret one entry of the aggregate process-info response. A zero
    /// process id is discarded; the type string is classified and the
    /// private-memory figure disambiguated.
    pub fn parse_process_info_entry(
        id: u32,
        cpu_time_milli: u64,
        private_raw: Option<u64>,
        type_str: &str,
        total_memory: u64,
    ) -> (r: Option<(u32, BrowserProcessInfo)>)
        requires
            total_memory <= MAX_TOTAL_MEMORY,
        ensures
            id == 0 ==> r is None,
            id != 0 ==> r == Some(
                (
                    id,
                    (BrowserProcessInfo {
                        cpu_time_milli: cpu_time_milli,
                        private_mem_bytes: match private_raw {
                            Some(raw) => spec_private_mem(raw, total_memory),
                            None => None,
                        },
                        proc_type: spec_classify(type_str.spec_bytes()),
                    }),
                ),
            ),
    {
        if id == 0 {
            return None;
        }
        let private_mem_bytes = match private_raw {
            Some(raw) => disambiguate_private_memory(raw, total_memory),
            None => None,
        };
        let proc_type = classify_process_kind(type_str);
        Some((id, BrowserProcessInfo { cpu_time_milli, private_mem_bytes, proc_type }))
    }

    /// The process id of the first entry classified as a renderer, if any:
    /// the imprecise fallback when a page does not answer the direct
    /// process-id query.
    pub fn pick_renderer_pid(entries: &Vec<(u32, BrowserProcessInfo)>) -> (r: Option<u32>)
        ensures
            r == spec_pick_renderer(entries@),
    {
        let n = entries.len();
        let mut i: usize = 0;
        proof {
            assert(entries@.skip(0) =~= entries@);
        }
        while i < n
            invariant
                n == entries@.len(),
                0 <= i <= n,
                spec_pick_renderer(entries@) == spec_pick_renderer(entries@.skip(i as int)),
            decreases n - i,
        {
            proof {
                assert(entries@.skip(i as int)[0] == entries@[i as int]);
                assert(entries@.skip(i as int).drop_first() =~= entries@.skip(i + 1));
            }
            if entries[i].1.proc_type == ProcKind::Renderer {
                return Some(entries[i].0);
            }
            i = i + 1;
        }
        proof {
            assert(entries@.skip(n as int).len() == 0);
        }
        None
    }

    /// Resolve the process id behind a page: the direct answer when the
    /// process-id query succeeded, else the renderer-entry fallback, else
    /// unresolved. Best-effort and advisory — the fallback may be wrong when
    /// several renderers exist.
    pub fn resolve_process_id(direct: Option<u32>, entries: &Vec<(u32, BrowserProcessInfo)>) -> (r:
        Option<u32>)
        ensures
            direct is Some ==> r == direct,
            direct is None ==> r == spec_pick_renderer(entries@),
    {
        match direct {
            Some(pid) => Some(pid),
            None => Self::pick_renderer_pid(entries),
        }
    }

    /// The request line for a parameterless protocol method:
    /// `{"id":<id>,"method":"<method>"}`.
    pub fn build_request(id: u64, method: &str) -> (r: String)
        ensures
            r@ == spec_request_text(id as int, method@),
    {
        proof {
            reveal_strlit("{\"id\":");
            reveal_strlit(",\"method\":\"");
            reveal_strlit("\"}");
        }
        let mut s = String::from_str("{\"id\":");
        s.append(dec_string(id).as_str());
        s.append(",\"method\":\"");
        s.append(method);
        s.append("\"}");
        s
    }
}

/// First renderer entry's process id.
pub open spec fn spec_pick_renderer(entries: Seq<(u32, BrowserProcessInfo)>) -> Option<u32>
    decreases entries.len(),
{
    if entries.len() == 0 {
        None
    } else if entries[0].1.proc_type == ProcKind::Renderer {
        Some(entries[0].0)
    } else {
        spec_pick_renderer(entries.drop_first())
    }
}

/// The JSON-RPC-style request text for a parameterless method.
pub open spec fn spec_request_text(id: int, method: Seq<char>) -> Seq<char> {
    "{\"id\":"@ + spec_dec_str(id) + ",\"method\":\""@ + method + "\"}"@
}

} // verus!
