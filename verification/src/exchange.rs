//! One request/reply exchange with the daemon.
//!
//! The library decides and the caller does the transport work. An
//! [`Exchange`] goes from `Idle` through `Connecting`, `Sending` and
//! `AwaitingReply` to `Succeeded` or `Failed`; decoding the reply is part of
//! the last step. [`Exchange::step`] takes what the transport reported and
//! says what to do next: connect, send these bytes, read once, or stop with
//! this outcome. Nothing is retried and no state outlives the exchange but
//! the correlation ids, which come from an [`IdSequence`] that the caller
//! keeps for the life of the process.

use crate::msgpack::{decode_value, decoding, encode_value, encoding, outgoing, render_value, rendering};
use crate::wire::{lemma_array_view, models, Wire, WireValue};
use vstd::prelude::*;

verus! {

/// The message-type marker of a request.
pub const REQUEST_MARKER: u64 = 0;

/// How many bytes the one read of a reply may bring: 64 KiB.
pub const READ_CAPACITY: usize = 65536;

/// The id that comes after `id`: one more, and 0 after the largest.
pub open spec fn following(id: u32) -> u32 {
    if id == u32::MAX {
        0
    } else {
        (id + 1) as u32
    }
}

/// The id that the call number `k` gets, counting from 0, when the first
/// call got `first`.
pub open spec fn nth_id(first: u32, k: nat) -> u32 {
    ((first + k) % 0x1_0000_0000) as u32
}

/// The source of correlation ids. It starts at 1, hands out each id once and
/// wraps to 0 after the largest.
#[derive(Debug)]
pub struct IdSequence {
    next: u32,
}

impl IdSequence {
    /// The id that the next call will get.
    pub closed spec fn upcoming(&self) -> u32 {
        self.next
    }

    /// A sequence that has handed out nothing yet.
    pub fn new() -> (ids: IdSequence)
        ensures
            ids.upcoming() == 1,
    {
        IdSequence { next: 1 }
    }

    /// A sequence whose next id is `first`.
    pub fn starting_at(first: u32) -> (ids: IdSequence)
        ensures
            ids.upcoming() == first,
    {
        IdSequence { next: first }
    }

    /// Hands out the next id.
    pub fn take(&mut self) -> (id: u32)
        ensures
            id == old(self).upcoming(),
            final(self).upcoming() == following(id),
    {
        let id: u32 = self.next;
        self.next = id.wrapping_add(1);
        id
    }

    /// The id that the next call will get.
    pub fn peek(&self) -> (id: u32)
        ensures
            id == self.upcoming(),
    {
        self.next
    }
}

/// Each call's id follows the id of the call before it.
pub proof fn lemma_nth_id_steps(first: u32, k: nat)
    ensures
        nth_id(first, 0) == first,
        nth_id(first, k + 1) == following(nth_id(first, k)),
{
}

/// Fewer than 2^32 calls get ids that differ from one another, and as long
/// as the ids have not wrapped a later call gets the larger id.
pub proof fn lemma_ids_distinct_and_increasing(first: u32, i: nat, j: nat)
    requires
        i < j < 0x1_0000_0000,
    ensures
        nth_id(first, i) != nth_id(first, j),
        first + j <= u32::MAX ==> nth_id(first, i) < nth_id(first, j),
{
}

/// The request envelope: the request marker, the correlation id, the method
/// name and the parameters, in this order.
pub open spec fn request_envelope(id: u32, method: Seq<char>, params: Seq<Wire>) -> Wire {
    Wire::Array(
        seq![
            Wire::Integer(REQUEST_MARKER as int),
            Wire::Integer(id as int),
            Wire::Text(method),
            Wire::Array(params),
        ],
    )
}

/// Builds the request envelope.
pub fn build_request(id: u32, method: &str, params: Vec<WireValue>) -> (envelope: WireValue)
    ensures
        envelope@ == request_envelope(id, method@, models(params@)),
{
    let ghost listed = models(params@);
    proof {
        lemma_array_view(params);
    }
    let mut parts: Vec<WireValue> = Vec::new();
    parts.push(WireValue::unsigned(REQUEST_MARKER));
    parts.push(WireValue::unsigned(id as u64));
    parts.push(WireValue::text(method));
    parts.push(WireValue::Array(params));
    proof {
        lemma_array_view(parts);
        assert(models(parts@) =~= seq![
            Wire::Integer(REQUEST_MARKER as int),
            Wire::Integer(id as int),
            Wire::Text(method@),
            Wire::Array(listed),
        ]);
    }
    WireValue::Array(parts)
}

/// Why an exchange failed. Every failure ends the exchange.
#[derive(Debug, PartialEq, Eq)]
pub enum Failure {
    /// No connection to the address could be opened.
    Connect { address: String, cause: String },
    /// The request could not be put into the wire's binary format.
    Encode(String),
    /// The request could not be written in full.
    Write(String),
    /// The read failed or brought nothing.
    Read(String),
    /// The bytes read do not start with a value of the wire format.
    Decode(String),
    /// The reply is not an envelope.
    Protocol,
    /// The daemon reported an error; this is its message.
    Rpc(String),
}

impl Failure {
    /// The message that tells the user of the failure.
    pub open spec fn message_text(&self) -> Seq<char> {
        match self {
            Failure::Connect { address, cause } => "cannot connect to "@ + address@ + ": "@ + cause@,
            Failure::Encode(cause) => "encode error: "@ + cause@,
            Failure::Write(cause) => "write error: "@ + cause@,
            Failure::Read(cause) => "read error: "@ + cause@,
            Failure::Decode(cause) => "decode error: "@ + cause@,
            Failure::Protocol => "invalid response format"@,
            Failure::Rpc(message) => message@,
        }
    }

    /// The message that tells the user of the failure.
    pub fn message(&self) -> (text: String)
        ensures
            text@ == self.message_text(),
    {
        match self {
            Failure::Connect { address, cause } => {
                let mut text = "cannot connect to ".to_owned();
                text.append(address.as_str());
                text.append(": ");
                text.append(cause.as_str());
                text
            },
            Failure::Encode(cause) => {
                let mut text = "encode error: ".to_owned();
                text.append(cause.as_str());
                text
            },
            Failure::Write(cause) => {
                let mut text = "write error: ".to_owned();
                text.append(cause.as_str());
                text
            },
            Failure::Read(cause) => {
                let mut text = "read error: ".to_owned();
                text.append(cause.as_str());
                text
            },
            Failure::Decode(cause) => {
                let mut text = "decode error: ".to_owned();
                text.append(cause.as_str());
                text
            },
            Failure::Protocol => "invalid response format".to_owned(),
            Failure::Rpc(message) => message.clone(),
        }
    }
}

/// What a decoded reply amounts to.
pub enum Verdict {
    /// The daemon answered with this result.
    Result(Wire),
    /// The reply is not an envelope.
    Protocol,
    /// The daemon reported an error with this message.
    Rpc(Seq<char>),
}

/// A reply envelope is an array of exactly four elements, whatever they are.
pub open spec fn is_envelope(reply: Wire) -> bool {
    reply is Array && reply->Array_0.len() == 4
}

/// The message of an error slot: the text of a text string, a fixed message
/// for a text string that is malformed, and the printed form of any other
/// value.
pub open spec fn error_message(error: Wire) -> Seq<char> {
    match error {
        Wire::Text(message) => message,
        Wire::MalformedText(_) => "unknown error"@,
        other => rendering(outgoing(other)),
    }
}

/// Reads a decoded reply. Only the shape and the error slot decide: the
/// declared message type and id are not looked at, and where the error slot
/// holds anything but the absence marker the result slot is not looked at
/// either.
pub open spec fn verdict(reply: Wire) -> Verdict {
    if !is_envelope(reply) {
        Verdict::Protocol
    } else if !(reply->Array_0[2] is Nil) {
        Verdict::Rpc(error_message(reply->Array_0[2]))
    } else {
        Verdict::Result(reply->Array_0[3])
    }
}

/// The outcome of an exchange says what the verdict says.
pub open spec fn agrees(outcome: Result<Option<WireValue>, Failure>, verdict: Verdict) -> bool {
    match verdict {
        Verdict::Result(result) => outcome matches Ok(Some(value)) && value@ == result,
        Verdict::Protocol => outcome matches Err(Failure::Protocol),
        Verdict::Rpc(message) => outcome matches Err(Failure::Rpc(text)) && text@ == message,
    }
}

/// A reply of any other shape than four elements in an array is a protocol
/// failure, whatever its elements are.
pub proof fn lemma_shape_rejection(reply: Wire)
    requires
        !(reply is Array) || reply->Array_0.len() != 4,
    ensures
        verdict(reply) == Verdict::Protocol,
{
}

/// An error slot that holds anything but the absence marker decides alone:
/// two envelopes that agree in it get the same verdict, an RPC failure with
/// the error's message, whatever their other slots hold.
pub proof fn lemma_error_precedence(first: Seq<Wire>, second: Seq<Wire>)
    requires
        first.len() == 4,
        second.len() == 4,
        first[2] == second[2],
        !(first[2] is Nil),
    ensures
        verdict(Wire::Array(first)) == Verdict::Rpc(error_message(first[2])),
        verdict(Wire::Array(second)) == verdict(Wire::Array(first)),
{
}

/// Reads a decoded reply: the result on success, and else the failure.
pub fn interpret_reply(reply: WireValue) -> (outcome: Result<Option<WireValue>, Failure>)
    ensures
        agrees(outcome, verdict(reply@)),
{
    match reply {
        WireValue::Array(parts) => {
            let mut parts = parts;
            proof {
                lemma_array_view(parts);
            }
            if parts.len() != 4 {
                return Err(Failure::Protocol);
            }
            let result = parts.pop().unwrap();
            let error = parts.pop().unwrap();
            match error {
                WireValue::Nil => Ok(Some(result)),
                WireValue::Text(message) => Err(Failure::Rpc(message)),
                WireValue::MalformedText(_) => Err(Failure::Rpc("unknown error".to_owned())),
                other => Err(Failure::Rpc(render_value(&other))),
            }
        },
        _ => Err(Failure::Protocol),
    }
}

/// What the bytes of a request must be: the encoding of its envelope.
/// Nothing where the encoder reports an error for the envelope.
pub open spec fn request_bytes(id: u32, method: Seq<char>, params: Seq<Wire>) -> Option<Seq<u8>> {
    encoding(outgoing(request_envelope(id, method, params)))
}

/// What encoding a request led to: the bytes to send, or an encode failure
/// with the cause that the encoder gave.
pub fn framed(encoded: Result<Vec<u8>, String>) -> (prepared: Result<Vec<u8>, Failure>)
    ensures
        match encoded {
            Ok(bytes) => prepared == Ok::<Vec<u8>, Failure>(bytes),
            Err(cause) => prepared == Err::<Vec<u8>, Failure>(Failure::Encode(cause)),
        },
{
    match encoded {
        Ok(bytes) => Ok(bytes),
        Err(cause) => Err(Failure::Encode(cause)),
    }
}

/// Takes the next id and encodes the request that carries it.
pub fn prepare_request(ids: &mut IdSequence, method: &str, params: Vec<WireValue>) -> (prepared: Result<
    Vec<u8>,
    Failure,
>)
    ensures
        final(ids).upcoming() == following(old(ids).upcoming()),
        match prepared {
            Ok(bytes) => request_bytes(old(ids).upcoming(), method@, models(params@)) == Some(bytes@),
            Err(failure) => failure is Encode && request_bytes(
                old(ids).upcoming(),
                method@,
                models(params@),
            ) is None,
        },
{
    let id: u32 = ids.take();
    let envelope = build_request(id, method, params);
    framed(encode_value(&envelope))
}

/// The outcome that the bytes of the one read lead to: a read failure where
/// nothing came, a decode failure where the bytes do not start with a
/// value, and else what the decoded reply amounts to. Bytes after the first
/// value are ignored.
pub open spec fn concludes(received: Seq<u8>, outcome: Result<Option<WireValue>, Failure>) -> bool {
    if received.len() == 0 {
        outcome matches Err(Failure::Read(cause)) && cause@ == "empty reply"@
    } else {
        match decoding(received) {
            None => outcome matches Err(Failure::Decode(_)),
            Some(reply) => agrees(outcome, verdict(reply)),
        }
    }
}

/// What decoding a reply led to: what the reply amounts to, or a decode
/// failure with the cause that the decoder gave.
pub fn settle(decoded: Result<WireValue, String>) -> (outcome: Result<Option<WireValue>, Failure>)
    ensures
        match decoded {
            Ok(reply) => agrees(outcome, verdict(reply@)),
            Err(cause) => outcome == Err::<Option<WireValue>, Failure>(Failure::Decode(cause)),
        },
{
    match decoded {
        Ok(reply) => interpret_reply(reply),
        Err(cause) => Err(Failure::Decode(cause)),
    }
}

/// Decodes and reads what the one read brought.
pub fn conclude(received: &[u8]) -> (outcome: Result<Option<WireValue>, Failure>)
    ensures
        concludes(received@, outcome),
{
    if received.len() == 0 {
        return Err(Failure::Read("empty reply".to_owned()));
    }
    settle(decode_value(received))
}

/// Where an exchange stands.
#[derive(Debug, PartialEq, Eq, Clone, Copy)]
pub enum Phase {
    Idle,
    Connecting,
    Sending,
    AwaitingReply,
    Succeeded,
    Failed,
}

/// What the transport reports to the exchange.
#[derive(Debug, PartialEq, Eq)]
pub enum Event {
    /// The caller wants the exchange to start.
    Begin,
    /// The connection is open.
    Connected,
    /// The connection could not be opened, for this cause.
    ConnectFailed(String),
    /// All bytes of the request were written.
    Sent,
    /// The request could not be written in full, for this cause.
    SendFailed(String),
    /// The one read brought these bytes.
    Received(Vec<u8>),
    /// The read failed, for this cause.
    ReceiveFailed(String),
}

/// What the exchange asks of the transport next.
#[derive(Debug, PartialEq, Eq)]
pub enum Action {
    /// Open a connection to this address.
    Connect(String),
    /// Write all of these bytes.
    Send(Vec<u8>),
    /// Read once, at most this many bytes.
    Receive(usize),
    /// Close the connection; the exchange has ended with this outcome.
    Finish(Result<Option<WireValue>, Failure>),
}

/// The event is one that the phase waits for.
pub open spec fn awaited(phase: Phase, event: Event) -> bool {
    match phase {
        Phase::Idle => event is Begin,
        Phase::Connecting => event is Connected || event is ConnectFailed,
        Phase::Sending => event is Sent || event is SendFailed,
        Phase::AwaitingReply => event is Received || event is ReceiveFailed,
        Phase::Succeeded => false,
        Phase::Failed => false,
    }
}

/// One exchange: its phase, the address, and the request until it is sent.
#[derive(Debug)]
pub struct Exchange {
    phase: Phase,
    address: String,
    method: String,
    params: Vec<WireValue>,
}

impl Exchange {
    /// Where the exchange stands.
    pub closed spec fn phase(&self) -> Phase {
        self.phase
    }

    /// The address of the daemon's endpoint.
    pub closed spec fn address(&self) -> Seq<char> {
        self.address@
    }

    /// The method to call.
    pub closed spec fn method(&self) -> Seq<char> {
        self.method@
    }

    /// The parameters of the call, until the request has been made.
    pub closed spec fn params(&self) -> Seq<Wire> {
        models(self.params@)
    }

    /// An exchange that has not started.
    pub fn new(address: &str, method: &str, params: Vec<WireValue>) -> (exchange: Exchange)
        ensures
            exchange.phase() == Phase::Idle,
            exchange.address() == address@,
            exchange.method() == method@,
            exchange.params() == models(params@),
    {
        Exchange { phase: Phase::Idle, address: address.to_owned(), method: method.to_owned(), params }
    }

    /// Where the exchange stands.
    pub fn current_phase(&self) -> (phase: Phase)
        ensures
            phase == self.phase(),
    {
        self.phase
    }

    /// Says whether the event is one that the exchange waits for.
    pub fn accepts(&self, event: &Event) -> (accepted: bool)
        ensures
            accepted == awaited(self.phase(), *event),
    {
        match self.phase {
            Phase::Idle => match event {
                Event::Begin => true,
                _ => false,
            },
            Phase::Connecting => match event {
                Event::Connected => true,
                Event::ConnectFailed(_) => true,
                _ => false,
            },
            Phase::Sending => match event {
                Event::Sent => true,
                Event::SendFailed(_) => true,
                _ => false,
            },
            Phase::AwaitingReply => match event {
                Event::Received(_) => true,
                Event::ReceiveFailed(_) => true,
                _ => false,
            },
            Phase::Succeeded => false,
            Phase::Failed => false,
        }
    }

    /// What a step does, for each phase and each event that the phase waits
    /// for. An id is taken in one step only: when the connection is open.
    /// Bytes are handed over for sending in that step only, so that a
    /// failure to connect ends the exchange before anything is sent.
    pub open spec fn steps(
        before: Exchange,
        ids_before: IdSequence,
        event: Event,
        after: Exchange,
        ids_after: IdSequence,
        action: Action,
    ) -> bool {
        &&& after.address() == before.address()
        &&& after.method() == before.method()
        &&& match event {
            Event::Begin => {
                &&& action matches Action::Connect(address)
                &&& address@ == before.address()
                &&& after.phase() == Phase::Connecting
                &&& after.params() == before.params()
                &&& ids_after.upcoming() == ids_before.upcoming()
            },
            Event::Connected => {
                &&& ids_after.upcoming() == following(ids_before.upcoming())
                &&& match action {
                    Action::Send(bytes) => request_bytes(
                        ids_before.upcoming(),
                        before.method(),
                        before.params(),
                    ) == Some(bytes@) && after.phase() == Phase::Sending,
                    Action::Finish(Err(Failure::Encode(_))) => request_bytes(
                        ids_before.upcoming(),
                        before.method(),
                        before.params(),
                    ) is None && after.phase() == Phase::Failed,
                    _ => false,
                }
            },
            Event::ConnectFailed(cause) => {
                &&& action matches Action::Finish(Err(Failure::Connect { address, cause: reported }))
                &&& address@ == before.address()
                &&& reported@ == cause@
                &&& after.phase() == Phase::Failed
                &&& ids_after.upcoming() == ids_before.upcoming()
            },
            Event::Sent => {
                &&& action == Action::Receive(READ_CAPACITY)
                &&& after.phase() == Phase::AwaitingReply
                &&& ids_after.upcoming() == ids_before.upcoming()
            },
            Event::SendFailed(cause) => {
                &&& action matches Action::Finish(Err(Failure::Write(reported)))
                &&& reported@ == cause@
                &&& after.phase() == Phase::Failed
                &&& ids_after.upcoming() == ids_before.upcoming()
            },
            Event::Received(bytes) => {
                &&& action matches Action::Finish(outcome)
                &&& concludes(bytes@, outcome)
                &&& after.phase() == (if outcome is Ok {
                    Phase::Succeeded
                } else {
                    Phase::Failed
                })
                &&& ids_after.upcoming() == ids_before.upcoming()
            },
            Event::ReceiveFailed(cause) => {
                &&& action matches Action::Finish(Err(Failure::Read(reported)))
                &&& reported@ == cause@
                &&& after.phase() == Phase::Failed
                &&& ids_after.upcoming() == ids_before.upcoming()
            },
        }
    }

    /// Takes what the transport reported and says what to do next. An event
    /// that the exchange does not wait for changes nothing and gets no
    /// action.
    pub fn step(&mut self, ids: &mut IdSequence, event: Event) -> (action: Option<Action>)
        ensures
            match action {
                Some(action) => awaited(old(self).phase(), event) && Exchange::steps(
                    *old(self),
                    *old(ids),
                    event,
                    *final(self),
                    *final(ids),
                    action,
                ),
                None => {
                    &&& !awaited(old(self).phase(), event)
                    &&& final(self).phase() == old(self).phase()
                    &&& final(self).address() == old(self).address()
                    &&& final(self).method() == old(self).method()
                    &&& final(self).params() == old(self).params()
                    &&& final(ids).upcoming() == old(ids).upcoming()
                },
            },
    {
        if !self.accepts(&event) {
            return None;
        }
        Some(self.advance(ids, event))
    }

    /// Carries out the step for an event that the exchange waits for.
    fn advance(&mut self, ids: &mut IdSequence, event: Event) -> (action: Action)
        requires
            awaited(old(self).phase(), event),
        ensures
            Exchange::steps(*old(self), *old(ids), event, *final(self), *final(ids), action),
    {
        match event {
            Event::Begin => {
                self.phase = Phase::Connecting;
                Action::Connect(self.address.clone())
            },
            Event::Connected => {
                let mut params: Vec<WireValue> = Vec::new();
                std::mem::swap(&mut params, &mut self.params);
                match prepare_request(ids, self.method.as_str(), params) {
                    Ok(bytes) => {
                        self.phase = Phase::Sending;
                        Action::Send(bytes)
                    },
                    Err(failure) => {
                        self.phase = Phase::Failed;
                        Action::Finish(Err(failure))
                    },
                }
            },
            Event::ConnectFailed(cause) => {
                self.phase = Phase::Failed;
                Action::Finish(Err(Failure::Connect { address: self.address.clone(), cause }))
            },
            Event::Sent => {
                self.phase = Phase::AwaitingReply;
                Action::Receive(READ_CAPACITY)
            },
            Event::SendFailed(cause) => {
                self.phase = Phase::Failed;
                Action::Finish(Err(Failure::Write(cause)))
            },
            Event::Received(bytes) => {
                let outcome = conclude(bytes.as_slice());
                match outcome {
                    Ok(_) => {
                        self.phase = Phase::Succeeded;
                    },
                    Err(_) => {
                        self.phase = Phase::Failed;
                    },
                }
                Action::Finish(outcome)
            },
            Event::ReceiveFailed(cause) => {
                self.phase = Phase::Failed;
                Action::Finish(Err(Failure::Read(cause)))
            },
        }
    }
}

} // verus!
