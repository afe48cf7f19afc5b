//! The control-plane state machine: what one inbound WebSocket text
//! message does to the registry and what the connection owes in reply.

use vstd::prelude::*;
use crate::decode::decode_signal;
use crate::decode::opt_view;
use crate::decode::SignalFields;
use crate::decode::signal_candidate_of;
use crate::decode::signal_kind_of;
use crate::decode::signal_sdp_of;
use crate::encode::encode_results;
use crate::encode::results_json;
use crate::registry::Registry;
use crate::registry::register_post;
use crate::text::candidate_port;
use crate::text::nth_token;
use crate::text::str_eq;

verus! {

/// What the connection's loop must do after one message is handled.
#[derive(Debug, PartialEq)]
pub enum WsAction {
    /// Forward this SDP offer to the session negotiator and send its
    /// answer back verbatim.
    Negotiate { sdp: String },
    /// Send this results message, then close the sending side.
    SendResults { body: String },
    /// Nothing to send: the message was an "ice" registration, unknown,
    /// or malformed.
    Ignore,
}

/// The reply owed to a "done" message: the results message built from
/// the client's recorded samples when it has a bound entry, nothing
/// otherwise.
pub open spec fn done_response(reg: Registry, id: int) -> Option<Seq<char>> {
    match reg.samples_of(id) {
        Some(s) => Some(results_json(s)),
        None => None,
    }
}

/// Handles one inbound text message for the connection owning
/// `client_id`.
///
/// An "offer" asks for negotiation of its SDP payload; an "ice" message
/// binds the port extracted from its candidate (sixth space-separated
/// field) to the client; a "done" message asks for the results reply
/// when the client has a bound entry. Messages that are not valid JSON,
/// carry an unknown type, or miss the needed field are ignored and
/// leave the registry untouched.
pub fn handle_ws_message(text: &str, client_id: usize, reg: &mut Registry) -> (act: WsAction)
    requires
        old(reg).wf(),
    ensures
        final(reg).wf(),
        ({
            let kind = signal_kind_of(text@);
            &&& kind == Some("offer"@) ==> *final(reg) == *old(reg) && (match signal_sdp_of(
                text@,
            ) {
                Some(d) => (act matches WsAction::Negotiate { sdp } && sdp@ == d),
                None => act is Ignore,
            })
            &&& kind == Some("ice"@) ==> act is Ignore && (match signal_candidate_of(text@) {
                Some(c) => (match nth_token(c, 5) {
                    Some(p) => register_post(*old(reg), *final(reg), p, client_id as int),
                    None => *final(reg) == *old(reg),
                }),
                None => *final(reg) == *old(reg),
            })
            &&& kind == Some("done"@) ==> *final(reg) == *old(reg) && (match done_response(
                *old(reg),
                client_id as int,
            ) {
                Some(body) => (act matches WsAction::SendResults { body: b } && b@ == body),
                None => act is Ignore,
            })
            &&& (kind != Some("offer"@) && kind != Some("ice"@) && kind != Some("done"@))
                ==> act is Ignore && *final(reg) == *old(reg)
        }),
{
    proof {
        reveal_strlit("offer");
        reveal_strlit("ice");
        reveal_strlit("done");
        assert("offer"@.len() == 5 && "ice"@.len() == 3 && "done"@.len() == 4);
        assert("offer"@ != "ice"@ && "offer"@ != "done"@ && "ice"@ != "done"@);
    }
    let fields = decode_signal(text);
    let ghost gkind = signal_kind_of(text@);
    let SignalFields { kind: kind_field, sdp: sdp_field, candidate: cand_field } = fields;
    proof {
        assert(opt_view(kind_field) == gkind);
        assert(opt_view(sdp_field) == signal_sdp_of(text@));
        assert(opt_view(cand_field) == signal_candidate_of(text@));
    }
    let kind = match kind_field {
        Some(k) => k,
        None => {
            return WsAction::Ignore;
        },
    };
    if str_eq(kind.as_str(), "offer") {
        match sdp_field {
            Some(sdp) => WsAction::Negotiate { sdp },
            None => WsAction::Ignore,
        }
    } else if str_eq(kind.as_str(), "ice") {
        if let Some(cand) = cand_field {
            if let Some(port) = candidate_port(cand.as_str()) {
                reg.register(port, client_id);
            }
        }
        WsAction::Ignore
    } else if str_eq(kind.as_str(), "done") {
        match reg.read_samples(client_id) {
            Some(samples) => WsAction::SendResults { body: encode_results(&samples) },
            None => WsAction::Ignore,
        }
    } else {
        WsAction::Ignore
    }
}

} // verus!
