//! Stratum V1: what the relay reads from each decoded line, how a line is
//! classified in each direction, and the per-connection relay state.

use vstd::prelude::*;
use crate::framing::{complete_len, copy_range, is_line, views, LineBuffer};
use crate::json::{
    array_member_texts, array_member_texts_of, bool_member, bool_member_of, is_json, json_parses,
    opt_view, str_member, str_member_of, string_views,
};

verus! {

/// The parts of a JSON-RPC line that the proxies act on.
pub struct Sv1Message {
    /// The `method` member, when it is a string.
    pub method: Option<String>,
    /// The JSON text of each element of `params`, when it is an array.
    pub params: Option<Vec<String>>,
    /// The `result` member, when it is a boolean.
    pub result: Option<bool>,
    /// Whether the `error` member is an array.
    pub error_is_array: bool,
}

pub open spec fn method_is(m: Sv1Message, name: Seq<char>) -> bool {
    m.method matches Some(s) && s@ == name
}

pub open spec fn param_count(m: Sv1Message) -> nat {
    match m.params {
        Some(p) => p@.len(),
        None => 0,
    }
}

pub open spec fn opt_views(o: Option<Vec<String>>) -> Option<Seq<Seq<char>>> {
    match o {
        Some(v) => Some(string_views(v@)),
        None => None,
    }
}

/// `m` holds what serde_json reads from `line`.
pub open spec fn decodes_to(line: Seq<u8>, m: Sv1Message) -> bool {
    &&& opt_view(m.method) == str_member(line, "method"@)
    &&& opt_views(m.params) == array_member_texts(line, "params"@)
    &&& m.result == bool_member(line, "result"@)
    &&& m.error_is_array == array_member_texts(line, "error"@) is Some
}

/// Reads the members that the proxies act on from one line. `None` exactly
/// when the line is no JSON document.
pub fn decode_sv1_line(line: &[u8]) -> (r: Option<Sv1Message>)
    ensures
        r is Some <==> is_json(line@),
        r matches Some(m) ==> decodes_to(line@, m),
{
    if !json_parses(line) {
        return None;
    }
    let method = str_member_of(line, "method");
    let params = array_member_texts_of(line, "params");
    let result = bool_member_of(line, "result");
    let error_is_array = array_member_texts_of(line, "error").is_some();
    Some(Sv1Message { method, params, result, error_is_array })
}

fn method_equals(m: &Sv1Message, name: &str) -> (r: bool)
    ensures
        r == method_is(*m, name@),
{
    match &m.method {
        Some(s) => {
            let wanted = name.to_owned();
            *s == wanted
        },
        None => false,
    }
}

/// What a decoded line from the mining device means to the proxy.
pub enum ClientEvent {
    /// A `mining.submit`; the JSON text of its fifth parameter (the nonce)
    /// when there is one.
    ShareSubmitted { nonce: Option<String> },
    /// Any other decoded line.
    Other,
}

pub open spec fn spec_client_event(m: Sv1Message) -> ClientEvent {
    if method_is(m, "mining.submit"@) {
        ClientEvent::ShareSubmitted {
            nonce: if param_count(m) > 4 {
                Some(m.params->0@[4])
            } else {
                None
            },
        }
    } else {
        ClientEvent::Other
    }
}

pub fn client_event(m: &Sv1Message) -> (r: ClientEvent)
    ensures
        r == spec_client_event(*m),
{
    if method_equals(m, "mining.submit") {
        let nonce = match &m.params {
            Some(p) => if p.len() > 4 {
                Some(p[4].clone())
            } else {
                None
            },
            None => None,
        };
        ClientEvent::ShareSubmitted { nonce }
    } else {
        ClientEvent::Other
    }
}

/// How a decoded line from the pool bears on the share tallies.
pub enum ShareOutcome {
    /// The first `"result": true` of the connection: the answer to the
    /// subscription, not to a share.
    SubscribeAck,
    /// A later `"result": true`: a share was accepted.
    Accepted,
    /// An `error` array: a share was rejected as stale.
    Rejected,
    /// Anything else.
    Neither,
}

/// What a decoded line from the pool means to the proxy.
pub struct ServerEvent {
    /// A `mining.notify`.
    pub notify: bool,
    /// A `mining.notify` that carries a previous-block hash (a second
    /// parameter).
    pub notify_with_prevhash: bool,
    pub share: ShareOutcome,
}

pub open spec fn spec_share_outcome(m: Sv1Message, first_result_seen: bool) -> ShareOutcome {
    share_outcome_of(m.result, m.error_is_array, first_result_seen)
}

pub open spec fn spec_server_event(m: Sv1Message, first_result_seen: bool) -> ServerEvent {
    ServerEvent {
        notify: method_is(m, "mining.notify"@),
        notify_with_prevhash: method_is(m, "mining.notify"@) && param_count(m) > 1,
        share: spec_share_outcome(m, first_result_seen),
    }
}

/// The nonce parameter (the fifth) of a line's `params`, as JSON text.
pub open spec fn line_nonce(line: Seq<u8>) -> Option<Seq<char>> {
    match array_member_texts(line, "params"@) {
        Some(p) => if p.len() > 4 {
            Some(p[4])
        } else {
            None
        },
        None => None,
    }
}

/// What a JSON line from the mining device means, read from its bytes.
pub open spec fn client_event_of(line: Seq<u8>, e: ClientEvent) -> bool {
    match e {
        ClientEvent::ShareSubmitted { nonce } => str_member(line, "method"@) == Some("mining.submit"@)
            && opt_view(nonce) == line_nonce(line),
        ClientEvent::Other => str_member(line, "method"@) != Some("mining.submit"@),
    }
}

/// What a JSON line from the pool means, read from its bytes, given whether
/// the connection has had its first `"result": true`.
pub open spec fn server_event_of(line: Seq<u8>, first_result_seen: bool) -> ServerEvent {
    let notify = str_member(line, "method"@) == Some("mining.notify"@);
    ServerEvent {
        notify,
        notify_with_prevhash: notify && match array_member_texts(line, "params"@) {
            Some(p) => p.len() > 1,
            None => false,
        },
        share: share_outcome_of(
            bool_member(line, "result"@),
            array_member_texts(line, "error"@) is Some,
            first_result_seen,
        ),
    }
}

pub open spec fn share_outcome_of(result: Option<bool>, error_is_array: bool, first_result_seen: bool) -> ShareOutcome {
    if result == Some(true) {
        if first_result_seen {
            ShareOutcome::Accepted
        } else {
            ShareOutcome::SubscribeAck
        }
    } else if error_is_array {
        ShareOutcome::Rejected
    } else {
        ShareOutcome::Neither
    }
}

proof fn lemma_decoded_events(line: Seq<u8>, m: Sv1Message, seen: bool)
    requires
        decodes_to(line, m),
    ensures
        client_event_of(line, spec_client_event(m)),
        spec_server_event(m, seen) == server_event_of(line, seen),
{
    if m.params is Some {
        assert(string_views(m.params->0@).len() == m.params->0@.len());
        if m.params->0@.len() > 4 {
            assert(string_views(m.params->0@)[4] == m.params->0@[4]@);
        }
    }
}

/// Classifies one decoded line from the pool. `first_result_seen` records
/// whether the connection has already had its first `"result": true`.
pub fn server_event(m: &Sv1Message, first_result_seen: &mut bool) -> (r: ServerEvent)
    ensures
        r == spec_server_event(*m, *old(first_result_seen)),
        *final(first_result_seen) == (*old(first_result_seen) || m.result == Some(true)),
{
    let notify = method_equals(m, "mining.notify");
    let with_prevhash = notify && match &m.params {
        Some(p) => p.len() > 1,
        None => false,
    };
    let share = if m.result == Some(true) {
        if *first_result_seen {
            ShareOutcome::Accepted
        } else {
            *first_result_seen = true;
            ShareOutcome::SubscribeAck
        }
    } else if m.error_is_array {
        ShareOutcome::Rejected
    } else {
        ShareOutcome::Neither
    };
    ServerEvent { notify, notify_with_prevhash: with_prevhash, share }
}

/// One line to forward from the mining device, with what it meant.
pub struct ClientFrame {
    pub bytes: Vec<u8>,
    /// `None` when the line is no JSON document.
    pub event: Option<ClientEvent>,
}

/// One line to forward from the pool, with what it meant.
pub struct ServerFrame {
    pub bytes: Vec<u8>,
    /// `None` when the line is no JSON document.
    pub event: Option<ServerEvent>,
}

pub open spec fn is_ack(f: ServerFrame) -> bool {
    f.event matches Some(e) && e.share is SubscribeAck
}

pub open spec fn is_accept(f: ServerFrame) -> bool {
    f.event matches Some(e) && e.share is Accepted
}

pub open spec fn client_frame_bytes(f: Seq<ClientFrame>) -> Seq<Vec<u8>> {
    f.map_values(|x: ClientFrame| x.bytes)
}

pub open spec fn server_frame_bytes(f: Seq<ServerFrame>) -> Seq<Vec<u8>> {
    f.map_values(|x: ServerFrame| x.bytes)
}

/// The state of one relayed Stratum V1 connection: a buffer per direction
/// and whether the pool has sent its first `"result": true`.
pub struct Sv1Relay {
    client: LineBuffer,
    server: LineBuffer,
    first_result_seen: bool,
}

impl Sv1Relay {
    pub closed spec fn client_pending(&self) -> Seq<u8> {
        self.client@
    }

    pub closed spec fn server_pending(&self) -> Seq<u8> {
        self.server@
    }

    pub closed spec fn spec_first_result_seen(&self) -> bool {
        self.first_result_seen
    }

    pub closed spec fn wf(&self) -> bool {
        self.client.wf() && self.server.wf()
    }

    pub fn new() -> (r: Sv1Relay)
        ensures
            r.wf(),
            r.client_pending() == Seq::<u8>::empty(),
            r.server_pending() == Seq::<u8>::empty(),
            !r.spec_first_result_seen(),
    {
        Sv1Relay { client: LineBuffer::new(), server: LineBuffer::new(), first_result_seen: false }
    }

    /// The number of bytes from the mining device waiting for a newline.
    pub fn client_pending_len(&self) -> (r: usize)
        ensures
            r == self.client_pending().len(),
    {
        self.client.pending_len()
    }

    /// The number of bytes from the pool waiting for a newline.
    pub fn server_pending_len(&self) -> (r: usize)
        ensures
            r == self.server_pending().len(),
    {
        self.server.pending_len()
    }

    /// The mining device closed its side: what it sent after its last
    /// newline, to be forwarded as it is.
    pub fn finish_client(&mut self) -> (rest: Vec<u8>)
        requires
            old(self).wf(),
        ensures
            final(self).wf(),
            rest@ == old(self).client_pending(),
            final(self).client_pending() == Seq::<u8>::empty(),
            final(self).server_pending() == old(self).server_pending(),
            final(self).spec_first_result_seen() == old(self).spec_first_result_seen(),
    {
        self.client.finish()
    }

    /// The pool closed its side: what it sent after its last newline, to be
    /// forwarded as it is.
    pub fn finish_server(&mut self) -> (rest: Vec<u8>)
        requires
            old(self).wf(),
        ensures
            final(self).wf(),
            rest@ == old(self).server_pending(),
            final(self).server_pending() == Seq::<u8>::empty(),
            final(self).client_pending() == old(self).client_pending(),
            final(self).spec_first_result_seen() == old(self).spec_first_result_seen(),
    {
        self.server.finish()
    }

    /// Takes the bytes of one read from the mining device. Every complete
    /// line is returned to be forwarded as it came, whether it decodes or
    /// not; a line carries an event only when it is a JSON document.
    pub fn on_client_read(&mut self, chunk: &[u8]) -> (frames: Vec<ClientFrame>)
        requires
            old(self).wf(),
            old(self).client_pending().len() + chunk@.len() <= usize::MAX,
        ensures
            final(self).wf(),
            ({
                let all = old(self).client_pending() + chunk@;
                &&& views(client_frame_bytes(frames@)).flatten() == all.take(complete_len(all) as int)
                &&& final(self).client_pending() == all.skip(complete_len(all) as int)
            }),
            final(self).server_pending() == old(self).server_pending(),
            final(self).spec_first_result_seen() == old(self).spec_first_result_seen(),
            forall|i: int| 0 <= i < frames@.len() ==> {
                &&& is_line(#[trigger] frames@[i].bytes@)
                &&& (frames@[i].event is Some <==> is_json(frames@[i].bytes@))
                &&& (frames@[i].event matches Some(e) ==> client_event_of(frames@[i].bytes@, e))
                // a line reaches the share consumer exactly when it decodes
                // and is a `mining.submit`
                &&& ((frames@[i].event matches Some(ClientEvent::ShareSubmitted { .. })) <==> (
                is_json(frames@[i].bytes@) && str_member(frames@[i].bytes@, "method"@) == Some(
                    "mining.submit"@,
                )))
            },
    {
        let lines = self.client.push_chunk(chunk);
        let mut frames: Vec<ClientFrame> = Vec::new();
        let mut i: usize = 0;
        while i < lines.len()
            invariant
                i <= lines@.len(),
                frames@.len() == i,
                forall|k: int| 0 <= k < i ==> (#[trigger] frames@[k]).bytes@ == lines@[k]@,
                forall|k: int| 0 <= k < i ==> ((#[trigger] frames@[k]).event is Some <==> is_json(lines@[k]@)),
                forall|k: int|
                    0 <= k < i ==> ((#[trigger] frames@[k]).event matches Some(e) ==> client_event_of(
                        lines@[k]@,
                        e,
                    )),
            decreases lines@.len() - i,
        {
            let line = copy_range(lines[i].as_slice(), 0, lines[i].len());
            assert(line@ =~= lines@[i as int]@);
            let event = match decode_sv1_line(line.as_slice()) {
                Some(m) => {
                    proof {
                        lemma_decoded_events(line@, m, false);
                    }
                    Some(client_event(&m))
                },
                None => None,
            };
            frames.push(ClientFrame { bytes: line, event });
            i += 1;
        }
        assert(views(client_frame_bytes(frames@)) =~= views(lines@));
        frames
    }

    /// Takes the bytes of one read from the pool, as `on_client_read` does;
    /// the first `"result": true` of the connection is told apart from share
    /// acceptances.
    pub fn on_server_read(&mut self, chunk: &[u8]) -> (frames: Vec<ServerFrame>)
        requires
            old(self).wf(),
            old(self).server_pending().len() + chunk@.len() <= usize::MAX,
        ensures
            final(self).wf(),
            ({
                let all = old(self).server_pending() + chunk@;
                &&& views(server_frame_bytes(frames@)).flatten() == all.take(complete_len(all) as int)
                &&& final(self).server_pending() == all.skip(complete_len(all) as int)
            }),
            final(self).client_pending() == old(self).client_pending(),
            forall|i: int| 0 <= i < frames@.len() ==> {
                &&& is_line(#[trigger] frames@[i].bytes@)
                &&& (frames@[i].event is Some <==> is_json(frames@[i].bytes@))
                &&& (frames@[i].event matches Some(e) ==> e == server_event_of(
                    frames@[i].bytes@,
                    old(self).spec_first_result_seen() || exists|k: int|
                        0 <= k < i && is_ack(#[trigger] frames@[k]),
                ))
            },
            // only the first `"result": true` of the connection is the
            // subscription's answer, and no acceptance comes before it
            final(self).spec_first_result_seen() == (old(self).spec_first_result_seen() || exists|
                i: int,
            | 0 <= i < frames@.len() && is_ack(#[trigger] frames@[i])),
            old(self).spec_first_result_seen() ==> forall|i: int|
                0 <= i < frames@.len() ==> !is_ack(#[trigger] frames@[i]),
            forall|i: int, j: int|
                0 <= i < j < frames@.len() && is_ack(#[trigger] frames@[j]) ==> !is_ack(
                    #[trigger] frames@[i],
                ) && !is_accept(frames@[i]),
    {
        let lines = self.server.push_chunk(chunk);
        let ghost server_after = self.server@;
        let mut frames: Vec<ServerFrame> = Vec::new();
        let mut i: usize = 0;
        while i < lines.len()
            invariant
                i <= lines@.len(),
                frames@.len() == i,
                self.server@ == server_after,
                self.first_result_seen == (old(self).spec_first_result_seen() || exists|k: int|
                    0 <= k < i && is_ack(#[trigger] frames@[k])),
                old(self).spec_first_result_seen() ==> forall|k: int|
                    0 <= k < i ==> !is_ack(#[trigger] frames@[k]),
                !self.first_result_seen ==> forall|k: int|
                    0 <= k < i ==> !is_ack(#[trigger] frames@[k]) && !is_accept(frames@[k]),
                forall|a: int, b: int|
                    0 <= a < b < i && is_ack(#[trigger] frames@[b]) ==> !is_ack(#[trigger] frames@[a])
                        && !is_accept(frames@[a]),
                forall|j: int|
                    0 <= j < i ==> ((#[trigger] frames@[j]).event matches Some(e) ==> e
                        == server_event_of(
                        lines@[j]@,
                        old(self).spec_first_result_seen() || exists|k: int|
                            0 <= k < j && is_ack(#[trigger] frames@[k]),
                    )),
                self.client@ == old(self).client_pending(),
                self.wf(),
                forall|k: int| 0 <= k < i ==> (#[trigger] frames@[k]).bytes@ == lines@[k]@,
                forall|k: int| 0 <= k < i ==> ((#[trigger] frames@[k]).event is Some <==> is_json(lines@[k]@)),
            decreases lines@.len() - i,
        {
            let line = copy_range(lines[i].as_slice(), 0, lines[i].len());
            assert(line@ =~= lines@[i as int]@);
            let event = match decode_sv1_line(line.as_slice()) {
                Some(m) => {
                    proof {
                        lemma_decoded_events(line@, m, self.first_result_seen);
                    }
                    Some(server_event(&m, &mut self.first_result_seen))
                },
                None => None,
            };
            let ghost before = frames@;
            frames.push(ServerFrame { bytes: line, event });
            proof {
                assert(forall|k: int| 0 <= k < i ==> frames@[k] == before[k]);
                let ghost new_frame = frames@[i as int];
                if self.first_result_seen && !old(self).spec_first_result_seen() && !is_ack(new_frame) {
                    let k = choose|k: int| 0 <= k < i && is_ack(#[trigger] before[k]);
                    assert(is_ack(frames@[k]));
                }
                if !self.first_result_seen {
                    assert forall|k: int| 0 <= k < i + 1 implies !is_ack(#[trigger] frames@[k]) by {
                        if k < i {
                            assert(frames@[k] == before[k]);
                        }
                    }
                }
            }
            i += 1;
        }
        assert(views(server_frame_bytes(frames@)) =~= views(lines@));
        frames
    }
}

} // verus!
