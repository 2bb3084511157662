//! The per-connection forwarding pipeline as an explicit state machine:
//! accept, read, parse, connect upstream, rewrite and forward, relay one
//! response, close. All decisions and all segment rewriting are verified
//! here; a driver performs the reads, writes and connects and reports
//! their outcomes as events.

use crate::checksum::extend_bytes;
use crate::codec::{
    decode, decode_ok, encode, encode_bytes, ip_view_of, tcp_model_of, tcp_offset,
};
use crate::errors::ProxyError;
use crate::options::{inject_ok, injected_of, injected_options, pad_len};
use vstd::arithmetic::div_mod::lemma_fundamental_div_mod_converse_mod;
use vstd::prelude::*;
use vstd::slice::{slice_subrange, slice_to_vec};

verus! {

/// Whether a captured buffer can be rewritten: it parses, and the injected
/// options keep the header within its 60-byte budget.
pub open spec fn rewrite_ok(b: Seq<u8>) -> bool {
    decode_ok(b) && inject_ok(tcp_model_of(b).options)
}

/// What the rewrite produces: the IP header bytes unchanged, followed by
/// the re-encoded TCP segment carrying the injected options, the original
/// payload, and a freshly computed checksum.
pub open spec fn spec_rewrite(b: Seq<u8>) -> Seq<u8> {
    b.take(tcp_offset(b)) + encode_bytes(
        ip_view_of(b),
        tcp_model_of(b),
        injected_of(tcp_model_of(b).options),
        tcp_model_of(b).payload,
    )
}

/// Builds the rewritten segment for one captured buffer: parse, inject
/// the custom option ahead of the original options, re-encode with a
/// fresh checksum, and carry the IP header bytes over unchanged. Fails
/// with `ParseError` when the buffer does not parse and with
/// `OptionOverflow` when the injected options would not fit; nothing is
/// rewritten in either case.
pub fn rewrite_segment(buffer: &[u8]) -> (r: Result<Vec<u8>, ProxyError>)
    requires
        buffer@.len() + 12 <= 0xFFFF,
    ensures
        r is Ok <==> rewrite_ok(buffer@),
        r is Ok ==> r->Ok_0@ == spec_rewrite(buffer@),
        !decode_ok(buffer@) ==> r == Err::<Vec<u8>, ProxyError>(ProxyError::ParseError),
        decode_ok(buffer@) && !inject_ok(tcp_model_of(buffer@).options) ==> r == Err::<
            Vec<u8>,
            ProxyError,
        >(ProxyError::OptionOverflow),
{
    let (ip, tcp) = match decode(buffer) {
        Ok(p) => p,
        Err(e) => {
            return Err(e);
        },
    };
    let new_opts = match injected_options(tcp.options.as_slice()) {
        Ok(v) => v,
        Err(e) => {
            return Err(e);
        },
    };
    proof {
        let b = buffer@;
        let words = (b[tcp_offset(b) + 12] as int) / 16;
        lemma_fundamental_div_mod_converse_mod(words * 4 - 20, 4, words - 5, 0);
        assert(tcp@.options.len() % 4 == 0);
        assert(pad_len(tcp@.options.len() as int) == 0);
    }
    let seg = match encode(&ip, &tcp, new_opts.as_slice(), tcp.payload.as_slice()) {
        Ok(v) => v,
        Err(e) => {
            return Err(e);
        },
    };
    let mut out = slice_to_vec(slice_subrange(buffer, 0, (ip.header_len as usize) * 4));
    extend_bytes(&mut out, seg.as_slice());
    proof {
        assert(out@ =~= spec_rewrite(buffer@));
    }
    Ok(out)
}

/// Law: the rewrite grows a parsed buffer by exactly the 12 bytes of the
/// injected option: the original options are 4-byte aligned, so no filler
/// is added.
pub proof fn lemma_rewrite_length(b: Seq<u8>)
    requires
        decode_ok(b),
    ensures
        spec_rewrite(b).len() == b.len() + 12,
{
    let words = (b[tcp_offset(b) + 12] as int) / 16;
    lemma_fundamental_div_mod_converse_mod(words * 4 - 20, 4, words - 5, 0);
    assert(pad_len(tcp_model_of(b).options.len() as int) == 0);
}

/// The completion events a driver reports back to the state machine.
pub enum ProxyEvent {
    /// A client connection was accepted.
    Accepted,
    /// One chunk was read from the client (empty on a clean end of input).
    ChunkRead(Vec<u8>),
    /// No pending input or output: the machine may do its own work.
    Ready,
    /// The upstream connection is open.
    UpstreamConnected,
    /// The pending write was completed in full.
    WriteCompleted,
    /// One response chunk was read from the upstream connection.
    ResponseRead(Vec<u8>),
    /// The pending read, connect or write failed (a short response read
    /// counts as a failure).
    Failed,
}

/// The ghost mirror of `ProxyEvent`, over byte sequences.
#[verifier::ext_equal]
pub enum EventModel {
    Accepted,
    ChunkRead(Seq<u8>),
    Ready,
    UpstreamConnected,
    WriteCompleted,
    ResponseRead(Seq<u8>),
    Failed,
}

impl View for ProxyEvent {
    type V = EventModel;

    open spec fn view(&self) -> EventModel {
        match self {
            ProxyEvent::Accepted => EventModel::Accepted,
            ProxyEvent::ChunkRead(d) => EventModel::ChunkRead(d@),
            ProxyEvent::Ready => EventModel::Ready,
            ProxyEvent::UpstreamConnected => EventModel::UpstreamConnected,
            ProxyEvent::WriteCompleted => EventModel::WriteCompleted,
            ProxyEvent::ResponseRead(d) => EventModel::ResponseRead(d@),
            ProxyEvent::Failed => EventModel::Failed,
        }
    }
}

/// The states of one connection's pipeline. `Closed` and `Aborted` are
/// terminal; `Aborted` is reached from any state on failure. Each state
/// names the work the driver (or the machine itself, on `Ready`) performs
/// in it.
pub enum ProxyState {
    /// Waiting for a client connection.
    Listening,
    /// Reading one bounded chunk from the client.
    AcceptedClient,
    /// Parsing the chunk into IPv4/TCP header views.
    ParsedHeaders { chunk: Vec<u8> },
    /// Opening the outbound connection to the extracted destination.
    ConnectingUpstream { chunk: Vec<u8>, dest_ip: u32, dest_port: u16 },
    /// Building the rewritten segment, then writing it in full upstream.
    Forwarding { chunk: Vec<u8>, segment: Option<Vec<u8>> },
    /// Reading one response chunk upstream, then copying it to the client.
    RelayingResponse { reply: Option<Vec<u8>> },
    /// Both connections are released; nothing more happens.
    Closed,
    /// The connection failed; both connections are released.
    Aborted,
}

/// The ghost mirror of `ProxyState`, over byte sequences.
#[verifier::ext_equal]
pub enum StateModel {
    Listening,
    AcceptedClient,
    ParsedHeaders { chunk: Seq<u8> },
    ConnectingUpstream { chunk: Seq<u8>, dest_ip: u32, dest_port: u16 },
    Forwarding { chunk: Seq<u8>, segment: Option<Seq<u8>> },
    RelayingResponse { reply: Option<Seq<u8>> },
    Closed,
    Aborted,
}

impl View for ProxyState {
    type V = StateModel;

    open spec fn view(&self) -> StateModel {
        match self {
            ProxyState::Listening => StateModel::Listening,
            ProxyState::AcceptedClient => StateModel::AcceptedClient,
            ProxyState::ParsedHeaders { chunk } => StateModel::ParsedHeaders { chunk: chunk@ },
            ProxyState::ConnectingUpstream { chunk, dest_ip, dest_port } => {
                StateModel::ConnectingUpstream {
                    chunk: chunk@,
                    dest_ip: *dest_ip,
                    dest_port: *dest_port,
                }
            },
            ProxyState::Forwarding { chunk, segment } => {
                StateModel::Forwarding {
                    chunk: chunk@,
                    segment: match segment {
                        Option::Some(s) => Option::Some(s@),
                        Option::None => Option::None,
                    },
                }
            },
            ProxyState::RelayingResponse { reply } => {
                StateModel::RelayingResponse {
                    reply: match reply {
                        Option::Some(s) => Option::Some(s@),
                        Option::None => Option::None,
                    },
                }
            },
            ProxyState::Closed => StateModel::Closed,
            ProxyState::Aborted => StateModel::Aborted,
        }
    }
}

/// The transition function of the pipeline. A zero-byte read closes the
/// connection as idle; a chunk that does not parse aborts it before any
/// upstream connection; a rewrite that does not fit aborts it before any
/// byte is sent; the single response chunk is relayed unmodified; every
/// failure event and every unexpected event aborts. `Closed` and
/// `Aborted` are terminal.
pub open spec fn spec_step(s: StateModel, e: EventModel) -> StateModel {
    match (s, e) {
        (StateModel::Listening, EventModel::Accepted) => StateModel::AcceptedClient,
        (StateModel::AcceptedClient, EventModel::ChunkRead(d)) => {
            if d.len() == 0 {
                StateModel::Closed
            } else {
                StateModel::ParsedHeaders { chunk: d }
            }
        },
        (StateModel::ParsedHeaders { chunk }, EventModel::Ready) => {
            if decode_ok(chunk) {
                StateModel::ConnectingUpstream {
                    chunk,
                    dest_ip: ip_view_of(chunk).dest,
                    dest_port: tcp_model_of(chunk).dest_port,
                }
            } else {
                StateModel::Aborted
            }
        },
        (StateModel::ConnectingUpstream { chunk, .. }, EventModel::UpstreamConnected) => {
            StateModel::Forwarding { chunk, segment: Option::None }
        },
        (StateModel::Forwarding { chunk, segment: Option::None }, EventModel::Ready) => {
            if rewrite_ok(chunk) {
                StateModel::Forwarding { chunk, segment: Option::Some(spec_rewrite(chunk)) }
            } else {
                StateModel::Aborted
            }
        },
        (StateModel::Forwarding { segment: Option::Some(_), .. }, EventModel::WriteCompleted) => {
            StateModel::RelayingResponse { reply: Option::None }
        },
        (StateModel::RelayingResponse { reply: Option::None }, EventModel::ResponseRead(d)) => {
            StateModel::RelayingResponse { reply: Option::Some(d) }
        },
        (StateModel::RelayingResponse { reply: Option::Some(_) }, EventModel::WriteCompleted) => {
            StateModel::Closed
        },
        (StateModel::Closed, _) => StateModel::Closed,
        _ => StateModel::Aborted,
    }
}

/// What the machine maintains of its own state: chunks are bounded so the
/// rewritten segment's length fits the 16-bit pseudo-header length field,
/// a connecting state really holds the parsed destination, and a built
/// segment really is the rewrite of the chunk.
pub open spec fn state_wf(s: StateModel) -> bool {
    match s {
        StateModel::ParsedHeaders { chunk } => chunk.len() + 12 <= 0xFFFF,
        StateModel::ConnectingUpstream { chunk, dest_ip, dest_port } => {
            &&& chunk.len() + 12 <= 0xFFFF
            &&& decode_ok(chunk)
            &&& dest_ip == ip_view_of(chunk).dest
            &&& dest_port == tcp_model_of(chunk).dest_port
        },
        StateModel::Forwarding { chunk, segment } => {
            &&& chunk.len() + 12 <= 0xFFFF
            &&& decode_ok(chunk)
            &&& (segment matches Option::Some(seg) ==> seg == spec_rewrite(chunk))
        },
        _ => true,
    }
}

/// What the driver guarantees of an event: a read chunk is bounded.
pub open spec fn event_wf(e: EventModel) -> bool {
    match e {
        EventModel::ChunkRead(d) => d.len() + 12 <= 0xFFFF,
        _ => true,
    }
}

/// Performs one transition of the pipeline, doing the machine's own work
/// (parsing, option injection, encoding) where the event allows it.
pub fn step(s: ProxyState, e: ProxyEvent) -> (r: ProxyState)
    requires
        state_wf(s@),
        event_wf(e@),
    ensures
        r@ == spec_step(s@, e@),
        state_wf(r@),
{
    match (s, e) {
        (ProxyState::Listening, ProxyEvent::Accepted) => ProxyState::AcceptedClient,
        (ProxyState::AcceptedClient, ProxyEvent::ChunkRead(d)) => {
            if d.len() == 0 {
                ProxyState::Closed
            } else {
                ProxyState::ParsedHeaders { chunk: d }
            }
        },
        (ProxyState::ParsedHeaders { chunk }, ProxyEvent::Ready) => {
            match decode(chunk.as_slice()) {
                Ok((ip, tcp)) => {
                    ProxyState::ConnectingUpstream {
                        chunk,
                        dest_ip: ip.dest,
                        dest_port: tcp.dest_port,
                    }
                },
                Err(_) => ProxyState::Aborted,
            }
        },
        (ProxyState::ConnectingUpstream { chunk, .. }, ProxyEvent::UpstreamConnected) => {
            ProxyState::Forwarding { chunk, segment: None }
        },
        (ProxyState::Forwarding { chunk, segment: None }, ProxyEvent::Ready) => {
            match rewrite_segment(chunk.as_slice()) {
                Ok(seg) => ProxyState::Forwarding { chunk, segment: Some(seg) },
                Err(_) => ProxyState::Aborted,
            }
        },
        (ProxyState::Forwarding { segment: Some(_), .. }, ProxyEvent::WriteCompleted) => {
            ProxyState::RelayingResponse { reply: None }
        },
        (ProxyState::RelayingResponse { reply: None }, ProxyEvent::ResponseRead(d)) => {
            ProxyState::RelayingResponse { reply: Some(d) }
        },
        (ProxyState::RelayingResponse { reply: Some(_) }, ProxyEvent::WriteCompleted) => {
            ProxyState::Closed
        },
        (ProxyState::Closed, _) => ProxyState::Closed,
        _ => ProxyState::Aborted,
    }
}

/// Runs the machine over a sequence of events.
pub open spec fn run_steps(s: StateModel, events: Seq<EventModel>) -> StateModel
    decreases events.len(),
{
    if events.len() == 0 {
        s
    } else {
        run_steps(spec_step(s, events[0]), events.skip(1))
    }
}

/// Whether the machine, run over `events`, is ever in the state that
/// opens an upstream connection.
pub open spec fn visits_connecting(s: StateModel, events: Seq<EventModel>) -> bool
    decreases events.len(),
{
    ||| s is ConnectingUpstream
    ||| (events.len() > 0 && visits_connecting(spec_step(s, events[0]), events.skip(1)))
}

/// Law: `Aborted` is terminal; no later event leaves it, and in
/// particular no upstream connection is ever attempted from it.
pub proof fn lemma_aborted_stays(events: Seq<EventModel>)
    ensures
        run_steps(StateModel::Aborted, events) == StateModel::Aborted,
        !visits_connecting(StateModel::Aborted, events),
    decreases events.len(),
{
    if events.len() > 0 {
        lemma_aborted_stays(events.skip(1));
    }
}

/// Law: a non-empty chunk that does not parse moves the pipeline to
/// `Aborted` during the parse phase, before any upstream connection: run
/// over any later events, the machine never enters `ConnectingUpstream`.
pub proof fn lemma_malformed_never_connects(d: Seq<u8>, events: Seq<EventModel>)
    requires
        d.len() > 0,
        !decode_ok(d),
        events.len() >= 2,
        events[0] == EventModel::ChunkRead(d),
        events[1] == EventModel::Ready,
    ensures
        run_steps(StateModel::AcceptedClient, events) == StateModel::Aborted,
        !visits_connecting(StateModel::AcceptedClient, events),
{
    let s0 = StateModel::AcceptedClient;
    let s1 = spec_step(s0, events[0]);
    assert(s1 == StateModel::ParsedHeaders { chunk: d });
    assert(events.skip(1)[0] == events[1]);
    let s2 = spec_step(s1, events[1]);
    assert(s2 == StateModel::Aborted);
    assert(events.skip(1).skip(1) =~= events.skip(2));
    lemma_aborted_stays(events.skip(2));
    assert(run_steps(s0, events) == run_steps(s1, events.skip(1)));
    assert(run_steps(s1, events.skip(1)) == run_steps(s2, events.skip(2)));
    assert(visits_connecting(s0, events) == visits_connecting(s1, events.skip(1)));
    assert(visits_connecting(s1, events.skip(1)) == visits_connecting(s2, events.skip(2)));
}

/// Law: a buffer shorter than the 20-byte minimum never parses.
pub proof fn lemma_short_buffer_rejected(b: Seq<u8>)
    requires
        b.len() < 20,
    ensures
        !decode_ok(b),
{
}

} // verus!
