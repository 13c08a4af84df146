use humpty::extras::websocket_app::{
  fan_out, reader_step, session_to_drop, writer_step, Handle, OutgoingMessage, ReaderAction, WriterAction, WriterEvent,
};
use humpty::http::request::RequestHead;
use humpty::websocket::frame::{Frame, FrameRead, Opcode};
use humpty::websocket::handshake::{handshake_response, websocket_key};
use humpty::websocket::message::{Message, MessageRead, WebsocketError};
use std::sync::mpsc::channel;

/// A frame as a client sends it: masked with `key`.
fn client_frame(fin: bool, opcode: u8, payload: &[u8], key: [u8; 4]) -> Vec<u8> {
  let mut out = vec![(if fin { 0x80 } else { 0 }) | opcode];
  if payload.len() < 126 {
    out.push(0x80 | payload.len() as u8);
  } else {
    out.push(0x80 | 126);
    out.extend_from_slice(&(payload.len() as u16).to_be_bytes());
  }
  out.extend_from_slice(&key);
  for (i, b) in payload.iter().enumerate() {
    out.push(b ^ key[i % 4]);
  }
  out
}

#[test]
fn frames_round_trip_through_parse() {
  for len in [0usize, 5, 125, 126, 300, 70000] {
    let payload = vec![0x5au8; len];
    let bytes = Frame::new(Opcode::Binary, payload.clone()).to_bytes();
    match Frame::parse(&bytes) {
      FrameRead::Frame(f, n) => {
        assert!(f.fin);
        assert_eq!(f.opcode, Opcode::Binary);
        assert_eq!(f.payload, payload);
        assert_eq!(n, bytes.len());
      }
      _ => panic!("frame of {} bytes did not parse", len),
    }
  }
  assert!(matches!(Frame::parse(&[0x81]), FrameRead::Incomplete));
  assert!(matches!(Frame::parse(&[0x83, 0x00]), FrameRead::Invalid));
}

#[test]
fn fragments_reassemble_and_pings_are_answered() {
  let mut input = client_frame(false, 1, b"fizz", [1, 2, 3, 4]);
  input.extend(client_frame(true, 9, b"hi", [9, 9, 9, 9]));
  input.extend(client_frame(true, 0, b"buzz", [7, 0, 7, 0]));
  match Message::from_stream(&input, 1024) {
    MessageRead::Message { message, consumed, replies, pong } => {
      assert_eq!(message.text(), Some("fizzbuzz".to_string()));
      assert_eq!(consumed, input.len());
      assert_eq!(replies, Frame::new(Opcode::Pong, b"hi".to_vec()).to_bytes());
      assert!(!pong);
    }
    _ => panic!("no message"),
  }
  let half = &input[..input.len() - 2];
  assert!(matches!(Message::from_stream_nonblocking(half, 1024), MessageRead::Pending));
  assert!(matches!(Message::from_stream(half, 1024), MessageRead::Error(WebsocketError::UnexpectedEof)));
  assert!(matches!(Message::from_stream(&input, 3), MessageRead::Error(WebsocketError::TooBig)));
}

#[test]
fn bad_text_and_close_end_the_session() {
  let bad = client_frame(true, 1, &[0xff, 0xfe], [1, 1, 1, 1]);
  assert!(matches!(Message::from_stream(&bad, 1024), MessageRead::Error(WebsocketError::InvalidText)));
  match reader_step(Message::from_stream(&bad, 1024)) {
    ReaderAction::Disconnect(frame) => assert_eq!(frame, vec![0x88, 2, 0x03, 0xef]),
    _ => panic!("expected a close"),
  }
  let close = client_frame(true, 8, &[0x03, 0xe8], [4, 3, 2, 1]);
  match Message::from_stream(&close, 1024) {
    MessageRead::Closed { replies } => assert_eq!(replies, vec![0x88, 2, 0x03, 0xe8]),
    _ => panic!("expected closed"),
  }
  let stray = client_frame(true, 0, b"x", [0, 0, 0, 0]);
  assert!(matches!(Message::from_stream(&stray, 1024), MessageRead::Error(WebsocketError::Protocol)));
}

#[test]
fn messages_know_if_they_are_text() {
  assert!(Message::new(b"abc").is_text());
  assert!(!Message::new(&[0xff]).is_text());
  assert!(!Message::new_binary(b"abc").is_text());
  assert_eq!(Message::new_binary(b"abc").text(), None);
  assert_eq!(Message::new(b"ok").to_frame(), vec![0x81, 2, b'o', b'k']);
  assert_eq!(Message::new_binary(b"ok").bytes(), b"ok");
}

#[test]
fn handshake_then_broadcast_reaches_every_session() {
  let request = "GET /ws HTTP/1.1\r\nHost: x\r\nUpgrade: websocket\r\nConnection: keep-alive, Upgrade\r\n\
                 Sec-WebSocket-Key: dGhlIHNhbXBsZSBub25jZQ==\r\n\r\n";
  let (head, _) = RequestHead::new(request.as_bytes(), 8192).unwrap();
  let key = websocket_key(&head).unwrap();
  let response = handshake_response(&key);
  assert_eq!(response.status(), 101);
  assert_eq!(response.headers().get("Sec-WebSocket-Accept"), Some("s3pPLMBiTxaQ9kYGzzhZRbK+xOo="));

  // Three sessions, each with its own outbound channel.
  let mut senders = Vec::new();
  let mut receivers = Vec::new();
  for _ in 0..3 {
    let (tx, rx) = channel();
    senders.push(tx);
    receivers.push(rx);
  }
  let (first_tx, first_rx) = channel();
  let handle = Handle::new("10.0.0.1:5000".to_string(), first_tx);
  assert_eq!(handle.peer_addr(), "10.0.0.1:5000");

  // The first client sends the trigger; its handler broadcasts it.
  let incoming = client_frame(true, 1, b"fizzbuzz-trigger", [3, 1, 4, 1]);
  let message = match reader_step(Message::from_stream(&incoming, 1024)) {
    ReaderAction::Deliver(m, replies) => {
      assert!(replies.is_empty());
      m
    }
    _ => panic!("no message"),
  };
  handle.broadcast(message);

  // Its writer forwards the broadcast to the broadcast loop, which fans out.
  let forwarded = match writer_step(WriterEvent::Outgoing(first_rx.recv().unwrap())) {
    WriterAction::Forward(m) => m,
    _ => panic!("expected a forward"),
  };
  let delivered = fan_out(&senders, &forwarded);
  assert_eq!(delivered, vec![true, true, true]);
  assert_eq!(session_to_drop(&delivered), None);

  // Every session's writer writes the text, and every client reads it back.
  for rx in &receivers {
    let out: OutgoingMessage = rx.recv().unwrap();
    let bytes = match writer_step(WriterEvent::Outgoing(out)) {
      WriterAction::Write(b) => b,
      _ => panic!("expected a write"),
    };
    match Frame::parse(&bytes) {
      FrameRead::Frame(f, _) => {
        assert_eq!(f.opcode, Opcode::Text);
        assert_eq!(f.payload, b"fizzbuzz-trigger".to_vec());
      }
      _ => panic!("bad frame"),
    }
  }

  // A session whose client is gone is dropped after the next broadcast.
  drop(receivers.pop());
  let delivered = fan_out(&senders, &Message::new(b"again"));
  assert_eq!(session_to_drop(&delivered), Some(2));
  assert!(matches!(writer_step(WriterEvent::Disconnected), WriterAction::Stop));
  match writer_step(WriterEvent::Timeout) {
    WriterAction::Write(b) => assert_eq!(b, vec![0x89, 0]),
    _ => panic!("expected a ping"),
  }
}

#[test]
fn upgrade_needs_every_header() {
  let plain = RequestHead::new(b"GET /ws HTTP/1.1\r\nUpgrade: websocket\r\n\r\n", 8192).unwrap().0;
  assert!(websocket_key(&plain).is_none());
  let old = "GET /ws HTTP/1.0\r\nUpgrade: websocket\r\nConnection: upgrade\r\nSec-WebSocket-Key: k\r\n\r\n";
  assert!(websocket_key(&RequestHead::new(old.as_bytes(), 8192).unwrap().0).is_none());
}
