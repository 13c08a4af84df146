//! WebSocket messages: reassembled from frames, and written as one frame.
use vstd::prelude::*;
use crate::http::parse::copy_range;
use crate::http::response::append_bytes;
use crate::http::text::utf8_string;
use crate::websocket::frame::{frame_bytes, parse_frame, Frame, FrameParse, FrameRead, FrameView, Opcode};

verus! {

/// Represents a WebSocket message.
#[derive(Debug, Clone)]
pub struct Message {
    payload: Vec<u8>,
    text: bool,
}

impl View for Message {
    type V = (Seq<u8>, bool);

    /// The payload, and whether the message is text.
    closed spec fn view(&self) -> (Seq<u8>, bool) {
        (self.payload@, self.text)
    }
}

/// Why reading a message failed, and the close code it calls for.
#[derive(Debug, Clone, Copy, PartialEq, Eq, Structural)]
pub enum WebsocketError {
    /// The frames break the protocol (close code 1002).
    Protocol,
    /// A text message is not valid UTF-8 (close code 1007).
    InvalidText,
    /// The message is larger than allowed (close code 1009).
    TooBig,
    /// The stream ended inside a message.
    UnexpectedEof,
}

impl WebsocketError {
    /// The close code this error calls for.
    pub fn close_code(&self) -> (r: u16)
        ensures
            r == match *self {
                WebsocketError::Protocol => 1002u16,
                WebsocketError::InvalidText => 1007u16,
                WebsocketError::TooBig => 1009u16,
                WebsocketError::UnexpectedEof => 1006u16,
            },
    {
        match self {
            WebsocketError::Protocol => 1002,
            WebsocketError::InvalidText => 1007,
            WebsocketError::TooBig => 1009,
            WebsocketError::UnexpectedEof => 1006,
        }
    }
}

/// What reading frames until a whole message gives.
pub enum ReadView {
    /// A message; where it ended; the frames to send back for pings; whether a pong came.
    Message { payload: Seq<u8>, text: bool, end: int, replies: Seq<u8>, pong: bool },
    /// The peer closed; the close frame to echo.
    Closed { replies: Seq<u8> },
    /// The bytes end inside a message.
    Incomplete,
    /// The frames break the protocol.
    Invalid,
}

/// Reads frames from `pos` until a message is whole. Pings are answered
/// with pongs carrying their payload, pongs are noted, a close is echoed and
/// ends the connection; data frames are a first frame (text or binary)
/// followed by continuations, the last one final.
pub open spec fn read_frames(
    b: Seq<u8>,
    pos: int,
    started: bool,
    text: bool,
    acc: Seq<u8>,
    replies: Seq<u8>,
    pong: bool,
) -> ReadView
    decreases b.len() - pos,
{
    match parse_frame(b.subrange(pos, b.len() as int)) {
        FrameParse::Incomplete => ReadView::Incomplete,
        FrameParse::Invalid => ReadView::Invalid,
        FrameParse::Frame(f, n) => if n < 1 || pos < 0 || pos + n > b.len() {
            ReadView::Invalid
        } else {
            match f.opcode {
                Opcode::Ping => read_frames(
                    b,
                    pos + n,
                    started,
                    text,
                    acc,
                    replies + frame_bytes(FrameView { fin: true, opcode: Opcode::Pong, payload: f.payload }),
                    pong,
                ),
                Opcode::Pong => read_frames(b, pos + n, started, text, acc, replies, true),
                Opcode::Close => ReadView::Closed {
                    replies: replies + frame_bytes(FrameView { fin: true, opcode: Opcode::Close, payload: f.payload }),
                },
                _ => if started != (f.opcode == Opcode::Continuation) {
                    ReadView::Invalid
                } else {
                    let t = if started { text } else { f.opcode == Opcode::Text };
                    if f.fin {
                        ReadView::Message { payload: acc + f.payload, text: t, end: pos + n, replies, pong }
                    } else {
                        read_frames(b, pos + n, true, t, acc + f.payload, replies, pong)
                    }
                },
            }
        },
    }
}

/// The outcome of reading a message from bytes.
pub enum MessageRead {
    /// A message, the bytes it took, the frames to send back, and whether a pong came.
    Message { message: Message, consumed: usize, replies: Vec<u8>, pong: bool },
    /// The peer closed the connection; the close frame to echo.
    Closed { replies: Vec<u8> },
    /// The bytes hold no whole message yet; nothing is consumed.
    Pending,
    /// The message cannot be read.
    Error(WebsocketError),
}

/// What reading a message from `b` with a size limit gives, where an
/// incomplete message is `incomplete`.
pub open spec fn read_message(b: Seq<u8>, max_size: int, incomplete: ReadOutcome) -> ReadOutcome {
    match read_frames(b, 0, false, false, Seq::empty(), Seq::empty(), false) {
        ReadView::Incomplete => incomplete,
        ReadView::Invalid => ReadOutcome::Failed(WebsocketError::Protocol),
        ReadView::Closed { replies } => ReadOutcome::Closed { replies },
        ReadView::Message { payload, text, end, replies, pong } => if payload.len() > max_size {
            ReadOutcome::Failed(WebsocketError::TooBig)
        } else if text && !vstd::utf8::valid_utf8(payload) {
            ReadOutcome::Failed(WebsocketError::InvalidText)
        } else {
            ReadOutcome::Message { payload, text, end, replies, pong }
        },
    }
}

/// A message read, as mathematical values.
pub enum ReadOutcome {
    /// A message and what came with it.
    Message { payload: Seq<u8>, text: bool, end: int, replies: Seq<u8>, pong: bool },
    /// The peer closed.
    Closed { replies: Seq<u8> },
    /// Nothing whole yet.
    Pending,
    /// An error.
    Failed(WebsocketError),
}

/// A read outcome as mathematical values.
pub open spec fn outcome_view(r: MessageRead) -> ReadOutcome {
    match r {
        MessageRead::Message { message, consumed, replies, pong } => ReadOutcome::Message {
            payload: message@.0,
            text: message@.1,
            end: consumed as int,
            replies: replies@,
            pong,
        },
        MessageRead::Closed { replies } => ReadOutcome::Closed { replies: replies@ },
        MessageRead::Pending => ReadOutcome::Pending,
        MessageRead::Error(e) => ReadOutcome::Failed(e),
    }
}

} // verus!

verus! {

/// Reads frames from `b` until a message is whole, as `read_message` says;
/// `nonblocking` picks what an incomplete message gives.
fn read_message_exec(b: &[u8], max_size: usize, nonblocking: bool) -> (r: MessageRead)
    ensures
        outcome_view(r) == read_message(
            b@,
            max_size as int,
            if nonblocking { ReadOutcome::Pending } else { ReadOutcome::Failed(WebsocketError::UnexpectedEof) },
        ),
{
    let ghost inc = if nonblocking { ReadOutcome::Pending } else { ReadOutcome::Failed(WebsocketError::UnexpectedEof) };
    let mut pos: usize = 0;
    let mut started = false;
    let mut text = false;
    let mut acc: Vec<u8> = Vec::new();
    let mut replies: Vec<u8> = Vec::new();
    let mut pong = false;
    let ghost top = read_frames(b@, 0, false, false, Seq::empty(), Seq::empty(), false);
    assert(acc@ =~= Seq::<u8>::empty() && replies@ =~= Seq::<u8>::empty());
    let mut end: usize = 0;
    loop
        invariant_except_break
            top == read_frames(b@, pos as int, started, text, acc@, replies@, pong),
        invariant
            pos <= b@.len(),
            top == read_frames(b@, 0, false, false, Seq::empty(), Seq::empty(), false),
            inc == (if nonblocking { ReadOutcome::Pending } else { ReadOutcome::Failed(WebsocketError::UnexpectedEof) }),
        ensures
            top == (ReadView::Message { payload: acc@, text, end: end as int, replies: replies@, pong }),
        decreases b@.len() - pos,
    {
        let rest = copy_range(b, pos, b.len());
        match Frame::parse(rest.as_slice()) {
            FrameRead::Incomplete => {
                return if nonblocking {
                    MessageRead::Pending
                } else {
                    MessageRead::Error(WebsocketError::UnexpectedEof)
                };
            },
            FrameRead::Invalid => {
                return MessageRead::Error(WebsocketError::Protocol);
            },
            FrameRead::Frame(f, n) => {
                if n < 1 || n > b.len() - pos {
                    return MessageRead::Error(WebsocketError::Protocol);
                }
                match f.opcode {
                    Opcode::Ping => {
                        let reply = Frame::new(Opcode::Pong, f.payload).to_bytes();
                        append_bytes(&mut replies, reply.as_slice());
                    },
                    Opcode::Pong => {
                        pong = true;
                    },
                    Opcode::Close => {
                        let reply = Frame::new(Opcode::Close, f.payload).to_bytes();
                        append_bytes(&mut replies, reply.as_slice());
                        return MessageRead::Closed { replies };
                    },
                    _ => {
                        let cont = match f.opcode {
                            Opcode::Continuation => true,
                            _ => false,
                        };
                        if started != cont {
                            return MessageRead::Error(WebsocketError::Protocol);
                        }
                        if !started {
                            text = match f.opcode {
                                Opcode::Text => true,
                                _ => false,
                            };
                        }
                        append_bytes(&mut acc, f.payload.as_slice());
                        if f.fin {
                            end = pos + n;
                            break;
                        }
                        started = true;
                    },
                }
                pos = pos + n;
            },
        }
    }
    let payload = acc;
    let t = text;
    if payload.len() > max_size {
        return MessageRead::Error(WebsocketError::TooBig);
    }
    if t && utf8_string(payload.as_slice()).is_none() {
        return MessageRead::Error(WebsocketError::InvalidText);
    }
    MessageRead::Message { message: Message { payload, text: t }, consumed: end, replies, pong }
}

impl Message {
    /// Creates a message with the given payload, marked as text when the
    /// payload is valid UTF-8.
    pub fn new(payload: &[u8]) -> (r: Message)
        ensures
            r@ == (payload@, vstd::utf8::valid_utf8(payload@)),
    {
        let text = utf8_string(payload).is_some();
        Message { payload: copy_range(payload, 0, payload.len()), text }
    }

    /// Creates a binary message with the given payload.
    pub fn new_binary(payload: &[u8]) -> (r: Message)
        ensures
            r@ == (payload@, false),
    {
        Message { payload: copy_range(payload, 0, payload.len()), text: false }
    }

    /// Reads a message from the bytes a stream delivered, answering pings
    /// with pongs; bytes that end inside a message are an error.
    pub fn from_stream(b: &[u8], max_size: usize) -> (r: MessageRead)
        ensures
            outcome_view(r) == read_message(b@, max_size as int, ReadOutcome::Failed(WebsocketError::UnexpectedEof)),
    {
        read_message_exec(b, max_size, false)
    }

    /// Reads a message from the bytes a stream delivered so far, answering
    /// pings with pongs; bytes that end inside a message give `Pending` and
    /// consume nothing, so the partial frames wait for more bytes.
    pub fn from_stream_nonblocking(b: &[u8], max_size: usize) -> (r: MessageRead)
        ensures
            outcome_view(r) == read_message(b@, max_size as int, ReadOutcome::Pending),
    {
        read_message_exec(b, max_size, true)
    }

    /// A copy of the message.
    pub fn duplicate(&self) -> (r: Message)
        ensures
            r@ == self@,
    {
        Message { payload: copy_range(self.payload.as_slice(), 0, self.payload.len()), text: self.text }
    }

    /// Whether the sender marked the message as text.
    pub fn is_text(&self) -> (r: bool)
        ensures
            r == self@.1,
    {
        self.text
    }

    /// The payload as a string, if the message is text and valid UTF-8.
    pub fn text(&self) -> (r: Option<String>)
        ensures
            r is Some <==> self@.1 && vstd::utf8::valid_utf8(self@.0),
            r is Some ==> r->Some_0@ == vstd::utf8::decode_utf8(self@.0),
    {
        if self.text {
            utf8_string(self.payload.as_slice())
        } else {
            None
        }
    }

    /// The payload.
    pub fn bytes(&self) -> (r: &[u8])
        ensures
            r@ == self@.0,
    {
        self.payload.as_slice()
    }

    /// The message as one final frame, text or binary, ready to send.
    pub fn to_frame(self) -> (r: Vec<u8>)
        ensures
            r@ == frame_bytes(
                FrameView {
                    fin: true,
                    opcode: if self@.1 { Opcode::Text } else { Opcode::Binary },
                    payload: self@.0,
                },
            ),
    {
        let opcode = if self.text { Opcode::Text } else { Opcode::Binary };
        Frame::new(opcode, self.payload).to_bytes()
    }
}

} // verus!
