//! The WebSocket app broker: per-session handles that send to one client or
//! broadcast to all, and the decisions its reader, writer and broadcast
//! loops make.
use vstd::prelude::*;
use std::sync::mpsc::{SendError, Sender};
use crate::websocket::frame::{be_bytes, frame_bytes, write_be, Frame, FrameView, Opcode};
use crate::websocket::message::{outcome_view, Message, MessageRead, ReadOutcome, WebsocketError};

verus! {

#[verifier::external_type_specification]
#[verifier::external_body]
#[verifier::reject_recursive_types(T)]
pub struct ExSender<T>(Sender<T>);

#[verifier::external_type_specification]
#[verifier::external_body]
#[verifier::reject_recursive_types(T)]
pub struct ExSendError<T>(SendError<T>);

/// Relies on `Sender::send`: it queues the value unless the receiving end
/// is gone; either outcome can come back.
pub assume_specification<T>[ Sender::<T>::send ](s: &Sender<T>, t: T) -> Result<(), SendError<T>>;

/// A message from the server to one client or to all of them.
pub enum OutgoingMessage {
    /// A message for the client of this session.
    Message(Message),
    /// A message for every connected client.
    Broadcast(Message),
    /// A frame ready to write to this client, such as a pong or a close.
    Frame(Vec<u8>),
}

/// Why running the app ended.
#[derive(Debug, Clone, Copy, PartialEq, Eq, Structural)]
pub enum AppError {
    /// The broadcast thread failed.
    BroadcastThread,
    /// The thread that accepts sessions failed.
    ExecThread,
}

/// A session's handle: sends to its client, or broadcasts to every client.
pub struct Handle {
    addr: String,
    sender: Sender<OutgoingMessage>,
}

impl Handle {
    /// A handle for the client at `addr`, sending through `sender`.
    pub fn new(addr: String, sender: Sender<OutgoingMessage>) -> (r: Handle)
        ensures
            r.addr_view() == addr@,
    {
        Handle { addr, sender }
    }

    /// The client's address, as a view.
    pub closed spec fn addr_view(&self) -> Seq<char> {
        self.addr@
    }

    /// Queues a message for this client; a session that has ended drops it.
    pub fn send(&self, message: Message) {
        let _ = self.sender.send(OutgoingMessage::Message(message));
    }

    /// Queues a message for every connected client; a session that has
    /// ended drops it.
    pub fn broadcast(&self, message: Message) {
        let _ = self.sender.send(OutgoingMessage::Broadcast(message));
    }

    /// The address of the client.
    pub fn peer_addr(&self) -> (r: String)
        ensures
            r@ == self.addr_view(),
    {
        self.addr.clone()
    }
}

/// Broadcasts to every client from outside the sessions.
pub struct BroadcastSender(pub Sender<Message>);

impl BroadcastSender {
    /// Queues a message for every connected client; dropped once the app has ended.
    pub fn broadcast(&self, message: Message) {
        let _ = self.0.send(message);
    }
}

} // verus!

verus! {

/// What a session's writer sees next.
pub enum WriterEvent {
    /// Something to send arrived.
    Outgoing(OutgoingMessage),
    /// Nothing arrived within the heartbeat interval.
    Timeout,
    /// Every sender of the session is gone.
    Disconnected,
}

/// What a session's writer does next.
pub enum WriterAction {
    /// Writes these bytes to the client.
    Write(Vec<u8>),
    /// Hands the message to the broadcast loop.
    Forward(Message),
    /// Ends the session.
    Stop,
}

/// A ping frame with an empty payload.
pub open spec fn ping_frame() -> Seq<u8> {
    frame_bytes(FrameView { fin: true, opcode: Opcode::Ping, payload: Seq::empty() })
}

/// The frame a message goes out as.
pub open spec fn message_frame(m: (Seq<u8>, bool)) -> Seq<u8> {
    frame_bytes(FrameView { fin: true, opcode: if m.1 { Opcode::Text } else { Opcode::Binary }, payload: m.0 })
}

/// Decides what a session's writer does with an event: a message for its
/// client is written as a frame, a ready frame is written as it is (so every
/// write to the client goes through the writer, in order), a broadcast goes
/// to the broadcast loop, an
/// idle interval sends a ping, and a closed channel ends the session.
pub fn writer_step(event: WriterEvent) -> (r: WriterAction)
    ensures
        match event {
            WriterEvent::Outgoing(OutgoingMessage::Message(m)) => r is Write && r->Write_0@ == message_frame(m@),
            WriterEvent::Outgoing(OutgoingMessage::Broadcast(m)) => r is Forward && r->Forward_0@ == m@,
            WriterEvent::Outgoing(OutgoingMessage::Frame(b)) => r is Write && r->Write_0@ == b@,
            WriterEvent::Timeout => r is Write && r->Write_0@ == ping_frame(),
            WriterEvent::Disconnected => r is Stop,
        },
{
    match event {
        WriterEvent::Outgoing(OutgoingMessage::Message(m)) => WriterAction::Write(m.to_frame()),
        WriterEvent::Outgoing(OutgoingMessage::Broadcast(m)) => WriterAction::Forward(m),
        WriterEvent::Outgoing(OutgoingMessage::Frame(b)) => WriterAction::Write(b),
        WriterEvent::Timeout => WriterAction::Write(Frame::new(Opcode::Ping, Vec::new()).to_bytes()),
        WriterEvent::Disconnected => WriterAction::Stop,
    }
}

/// What a session's reader does after a read.
pub enum ReaderAction {
    /// Writes the replies (pongs) and hands the message to the message handler.
    Deliver(Message, Vec<u8>),
    /// Nothing whole arrived; reads again.
    Wait,
    /// Writes the frame (a close) and ends the session, calling the disconnect handler.
    Disconnect(Vec<u8>),
}

/// A close frame with a status code.
pub open spec fn close_frame(code: u16) -> Seq<u8> {
    frame_bytes(FrameView { fin: true, opcode: Opcode::Close, payload: be_bytes(code as nat, 2) })
}

/// Decides what a session's reader does with what it read: a message is
/// delivered along with the pongs owed; a close from the peer is echoed and
/// ends the session; an error closes with its code and ends the session.
pub fn reader_step(read: MessageRead) -> (r: ReaderAction)
    ensures
        match outcome_view(read) {
            ReadOutcome::Message { payload, text, end, replies, pong } => r is Deliver && r->Deliver_0@ == (
            payload, text) && r->Deliver_1@ == replies,
            ReadOutcome::Closed { replies } => r is Disconnect && r->Disconnect_0@ == replies,
            ReadOutcome::Pending => r is Wait,
            ReadOutcome::Failed(e) => r is Disconnect && r->Disconnect_0@ == close_frame(
                match e {
                    WebsocketError::Protocol => 1002u16,
                    WebsocketError::InvalidText => 1007u16,
                    WebsocketError::TooBig => 1009u16,
                    WebsocketError::UnexpectedEof => 1006u16,
                },
            ),
        },
{
    match read {
        MessageRead::Message { message, consumed: _, replies, pong: _ } => ReaderAction::Deliver(message, replies),
        MessageRead::Closed { replies } => ReaderAction::Disconnect(replies),
        MessageRead::Pending => ReaderAction::Wait,
        MessageRead::Error(e) => {
            let code = e.close_code();
            let mut payload: Vec<u8> = Vec::new();
            write_be(&mut payload, code as u64, 2);
            assert(payload@ =~= be_bytes(code as nat, 2));
            ReaderAction::Disconnect(Frame::new(Opcode::Close, payload).to_bytes())
        },
    }
}

/// The last session whose delivery failed, which the broadcast loop drops
/// (at most one per broadcast; the heartbeat finds the rest).
pub open spec fn failed_session(delivered: Seq<bool>) -> Option<int>
    decreases delivered.len(),
{
    if delivered.len() == 0 {
        None
    } else if !delivered.last() {
        Some(delivered.len() - 1)
    } else {
        failed_session(delivered.drop_last())
    }
}

/// Picks the session to drop after a broadcast, given which deliveries succeeded.
pub fn session_to_drop(delivered: &[bool]) -> (r: Option<usize>)
    ensures
        match failed_session(delivered@) {
            None => r is None,
            Some(i) => r is Some && r->Some_0 as int == i,
        },
{
    let mut i = delivered.len();
    assert(delivered@.subrange(0, i as int) =~= delivered@);
    while i > 0
        invariant
            i <= delivered@.len(),
            failed_session(delivered@) == failed_session(delivered@.subrange(0, i as int)),
        decreases i,
    {
        let ghost s = delivered@.subrange(0, i as int);
        assert(s.drop_last() =~= delivered@.subrange(0, i - 1));
        if !delivered[i - 1] {
            return Some(i - 1);
        }
        i = i - 1;
    }
    None
}

/// Hands a broadcast to every session's channel, in order, and returns
/// which deliveries succeeded.
pub fn fan_out(senders: &[Sender<OutgoingMessage>], message: &Message) -> (r: Vec<bool>)
    ensures
        r@.len() == senders@.len(),
{
    let mut out: Vec<bool> = Vec::new();
    let mut i: usize = 0;
    while i < senders.len()
        invariant
            i <= senders@.len(),
            out@.len() == i,
        decreases senders@.len() - i,
    {
        let ok = senders[i].send(OutgoingMessage::Message(message.duplicate())).is_ok();
        out.push(ok);
        i = i + 1;
    }
    out
}

} // verus!
