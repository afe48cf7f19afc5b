//! The decision logic of the datagram relay loop: decode a ping
//! envelope, correlate the source port with a registry entry, record
//! the index, and build the echo.

use vstd::prelude::*;
use crate::decode::decode_ping;
use crate::decode::ping_fields_of;
use crate::encode::encode_ping;
use crate::encode::ping_json;
use crate::registry::Registry;
use crate::registry::record_post;
use crate::text::addr_port;
use crate::text::addr_port_of;

verus! {

/// A decoded ping envelope: the peer-supplied sequence index and
/// timestamp. The server records the index and passes the timestamp
/// through without interpreting it.
#[derive(Debug, Clone)]
pub struct Ping {
    pub index: i64,
    pub time: u64,
}

/// Applies one decoded ping envelope: records its index under the
/// textual source port (a no-op when that port is unbound) and returns
/// the envelope echoed back in wire form.
pub fn apply_ping(ping: &Ping, remote_addr: &str, reg: &mut Registry) -> (echo: String)
    requires
        old(reg).wf(),
    ensures
        final(reg).wf(),
        echo@ == ping_json(ping.index as int, ping.time as nat),
        match addr_port(remote_addr@) {
            Some(p) => record_post(*old(reg), *final(reg), p, ping.index),
            None => *final(reg) == *old(reg),
        },
{
    match addr_port_of(remote_addr) {
        Some(port) => reg.record_sample(port.as_str(), ping.index),
        None => {},
    }
    encode_ping(ping.index, ping.time)
}

/// Handles one received datagram end to end. A payload that does not
/// decode to a ping envelope is dropped: nothing is echoed and the
/// registry is left exactly as it was. A decoded envelope is recorded
/// under its source port and echoed back.
pub fn handle_datagram(payload: &[u8], remote_addr: &str, reg: &mut Registry) -> (echo: Option<
    String,
>)
    requires
        old(reg).wf(),
    ensures
        final(reg).wf(),
        match ping_fields_of(payload@) {
            None => *final(reg) == *old(reg) && echo is None,
            Some((i, t)) => {
                &&& (echo matches Some(e) && e@ == ping_json(i as int, t as nat))
                &&& match addr_port(remote_addr@) {
                    Some(p) => record_post(*old(reg), *final(reg), p, i),
                    None => *final(reg) == *old(reg),
                }
            },
        },
{
    match decode_ping(payload) {
        None => None,
        Some((i, t)) => {
            let ping = Ping { index: i, time: t };
            Some(apply_ping(&ping, remote_addr, reg))
        },
    }
}

} // verus!
