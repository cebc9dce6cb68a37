use ws_reactor::codec::{decode, decode_client, encode, Frame, FrameError, OpCode};
use ws_reactor::conn::{Connection, ConnectionPhase, Interest};
use ws_reactor::handshake::HandshakeHandler;
use ws_reactor::key::accept_key;
use ws_reactor::reactor::{classify_token, Reactor, TokenKind, LISTENER_TOKEN};

fn text_frame(payload: &[u8], mask: Option<[u8; 4]>) -> Frame {
    Frame {
        fin: true,
        opcode: OpCode::Text,
        masked: mask.is_some(),
        mask_key: mask,
        payload: payload.to_vec(),
    }
}

#[test]
fn accept_key_rfc_vector() {
    let key = b"dGhlIHNhbXBsZSBub25jZQ==".to_vec();
    let accept = accept_key(&key);
    assert_eq!(accept, b"s3pPLMBiTxaQ9kYGzzhZRbK+xOo=".to_vec());
}

#[test]
fn accept_key_second_vector() {
    let key = b"x3JJHMbDL1EzLkh9GBhXDw==".to_vec();
    let accept = accept_key(&key);
    assert_eq!(accept, b"HSmrc0sMlYUkAGmm5OPpG2HaGWk=".to_vec());
}

#[test]
fn accept_key_deterministic_across_calls() {
    let key = b"dGhlIHNhbXBsZSBub25jZQ==".to_vec();
    assert_eq!(accept_key(&key), accept_key(&key));
}

#[test]
fn round_trip_unmasked_text() {
    let f = text_frame(b"hi", None);
    let wire = encode(&f);
    assert_eq!(wire, vec![0x81, 0x02, 0x68, 0x69]);
    let (g, n) = decode(&wire).unwrap().unwrap();
    assert_eq!(n, wire.len());
    assert!(g.fin);
    assert_eq!(g.opcode, OpCode::Text);
    assert!(!g.masked);
    assert_eq!(g.mask_key, None);
    assert_eq!(g.payload, b"hi".to_vec());
}

#[test]
fn round_trip_masked_text() {
    let f = text_frame(b"hi", Some([0x37, 0xfa, 0x21, 0x3d]));
    let wire = encode(&f);
    assert_eq!(wire, vec![0x81, 0x82, 0x37, 0xfa, 0x21, 0x3d, 0x68 ^ 0x37, 0x69 ^ 0xfa]);
    let (g, n) = decode(&wire).unwrap().unwrap();
    assert_eq!(n, wire.len());
    assert_eq!(g.opcode, OpCode::Text);
    assert!(g.masked);
    assert_eq!(g.mask_key, Some([0x37, 0xfa, 0x21, 0x3d]));
    assert_eq!(g.payload, b"hi".to_vec());
}

#[test]
fn round_trip_extended_16bit_length() {
    let payload: Vec<u8> = (0..300u32).map(|i| (i % 251) as u8).collect();
    let f = text_frame(&payload, Some([1, 2, 3, 4]));
    let wire = encode(&f);
    assert_eq!(wire[1], 0x80 | 126);
    assert_eq!(wire[2], 1);
    assert_eq!(wire[3], 44);
    let (g, n) = decode(&wire).unwrap().unwrap();
    assert_eq!(n, wire.len());
    assert_eq!(g.payload, payload);
}

#[test]
fn round_trip_extended_64bit_length() {
    let payload: Vec<u8> = vec![7u8; 70000];
    let f = text_frame(&payload, None);
    let wire = encode(&f);
    assert_eq!(wire[1], 127);
    assert_eq!(&wire[2..10], &[0, 0, 0, 0, 0, 1, 0x11, 0x70]);
    let (g, n) = decode(&wire).unwrap().unwrap();
    assert_eq!(n, wire.len());
    assert_eq!(g.payload, payload);
}

#[test]
fn decode_prefix_returns_none() {
    let f = text_frame(b"hello", Some([9, 9, 9, 9]));
    let wire = encode(&f);
    for cut in 0..wire.len() {
        let prefix = wire[..cut].to_vec();
        assert!(matches!(decode(&prefix), Ok(None)));
    }
}

#[test]
fn decode_consumes_exactly_one_frame() {
    let f = text_frame(b"hello", Some([9, 9, 9, 9]));
    let mut wire = encode(&f);
    let frame_len = wire.len();
    wire.extend_from_slice(&[0x81, 0x01, 0x41, 0xFF, 0xFF]);
    let (g, n) = decode(&wire).unwrap().unwrap();
    assert_eq!(n, frame_len);
    assert_eq!(g.payload, b"hello".to_vec());
}

#[test]
fn zero_mask_key_leaves_payload_identical() {
    let wire = vec![0x81, 0x82, 0, 0, 0, 0, 0x68, 0x69];
    let (g, _) = decode(&wire).unwrap().unwrap();
    assert!(g.masked);
    assert_eq!(g.payload, vec![0x68, 0x69]);
}

#[test]
fn control_frame_over_125_is_protocol_error() {
    // a Close frame announcing a 16-bit extended length
    let wire = vec![0x88, 0x80 | 126, 0x01, 0x00];
    assert!(matches!(decode(&wire), Err(FrameError::ProtocolError)));
    // a Ping frame announcing 126 with only the two header bytes so far:
    // the length field alone already breaks the rule
    let short = vec![0x89, 126];
    assert!(matches!(decode(&short), Err(FrameError::ProtocolError)));
}

#[test]
fn non_final_control_frame_is_protocol_error() {
    let wire = vec![0x08, 0x00];
    assert!(matches!(decode(&wire), Err(FrameError::ProtocolError)));
}

#[test]
fn unknown_opcode_is_protocol_error() {
    let wire = vec![0x83, 0x00];
    assert!(matches!(decode(&wire), Err(FrameError::ProtocolError)));
}

#[test]
fn server_rejects_unmasked_client_frame() {
    let wire = vec![0x81, 0x02, 0x68, 0x69];
    assert!(matches!(decode(&wire), Ok(Some(_))));
    assert!(matches!(decode_client(&wire), Err(FrameError::ProtocolError)));
}

#[test]
fn header_value_before_field_is_protocol_error() {
    let mut h = HandshakeHandler::new();
    assert!(matches!(h.on_header_value(b"oops"), Err(FrameError::ProtocolError)));
    assert!(h.on_header_field(b"Host"));
    assert!(matches!(h.on_header_value(b"example"), Ok(true)));
    assert_eq!(h.get_header(b"Host"), Some(b"example".to_vec()));
    assert_eq!(h.get_header(b"Missing"), None);
}

#[test]
fn header_map_last_write_wins() {
    let mut h = HandshakeHandler::new();
    h.on_header_field(b"X-Thing");
    h.on_header_value(b"one").unwrap();
    h.on_header_field(b"X-Thing");
    h.on_header_value(b"two").unwrap();
    assert_eq!(h.get_header(b"X-Thing"), Some(b"two".to_vec()));
}

#[test]
fn headers_complete_declines_to_continue() {
    let mut h = HandshakeHandler::new();
    assert!(!h.on_headers_complete());
}

#[test]
fn missing_key_rejects_handshake_without_response() {
    let mut c = Connection::new();
    c.handler.on_header_field(b"Upgrade");
    c.handler.on_header_value(b"websocket").unwrap();
    let accepted = c.upgrade_detected();
    assert!(!accepted);
    assert_eq!(c.phase, ConnectionPhase::Closed);
}

#[test]
fn end_to_end_handshake_and_text_frame() {
    let mut reactor = Reactor::new();
    assert_eq!(classify_token(LISTENER_TOKEN), TokenKind::Listener);
    let tok = reactor.accept_connection();
    assert_eq!(classify_token(tok), TokenKind::Peer(tok));

    // the tokenizer reports the key header, then the upgrade
    let mut c = reactor.take_connection(tok).unwrap();
    assert_eq!(c.phase, ConnectionPhase::AwaitingHandshake);
    c.handler.on_header_field(b"Sec-WebSocket-Key");
    c.handler.on_header_value(b"x3JJHMbDL1EzLkh9GBhXDw==").unwrap();
    assert!(c.upgrade_detected());
    assert_eq!(c.phase, ConnectionPhase::HandshakeResponsePending);
    assert_eq!(c.interest, Interest::Write);

    // writable: the exact 101 response goes out and the connection opens
    let response = c.handshake_response();
    let expected = b"HTTP/1.1 101 Switching Protocols\r\nConnection: Upgrade\r\n\
Sec-WebSocket-Accept: HSmrc0sMlYUkAGmm5OPpG2HaGWk=\r\nUpgrade: websocket\r\n\r\n";
    assert_eq!(response, expected.to_vec());
    assert_eq!(c.phase, ConnectionPhase::Open);
    assert_eq!(c.interest, Interest::Read);
    reactor.restore_connection(tok, c);
    assert_eq!(reactor.interest_of(tok), Some(Interest::Read));

    // readable: a masked Text frame "hi" arrives
    let key = [0x37, 0xfa, 0x21, 0x3d];
    let wire = vec![0x81, 0x82, key[0], key[1], key[2], key[3], 0x68 ^ key[0], 0x69 ^ key[1]];
    let frames = reactor.on_frame_data(tok, &wire).unwrap();
    assert_eq!(frames.len(), 1);
    assert_eq!(frames[0].opcode, OpCode::Text);
    assert_eq!(frames[0].payload, b"hi".to_vec());
    assert_eq!(reactor.interest_of(tok), Some(Interest::Read));
}

#[test]
fn frame_arriving_in_two_reads() {
    let mut c = Connection::new();
    c.phase = ConnectionPhase::Open;
    let wire = vec![0x81, 0x82, 0, 0, 0, 0, 0x68, 0x69];
    let first = c.on_data(&wire[..5]);
    assert!(first.is_empty());
    assert_eq!(c.phase, ConnectionPhase::Open);
    let second = c.on_data(&wire[5..]);
    assert_eq!(second.len(), 1);
    assert_eq!(second[0].payload, b"hi".to_vec());
    assert!(c.read_buf.is_empty());
}

#[test]
fn close_frame_starts_closing_exchange() {
    let mut c = Connection::new();
    c.phase = ConnectionPhase::Open;
    // a masked Close frame with no payload
    let wire = vec![0x88, 0x80, 1, 2, 3, 4];
    let frames = c.on_data(&wire);
    assert!(frames.is_empty());
    assert_eq!(c.phase, ConnectionPhase::Closing);
    assert_eq!(c.interest, Interest::Write);
    // writable: the answering Close goes out, then the connection is done
    let out = c.take_outbound();
    assert_eq!(out, vec![0x88, 0x00]);
    assert_eq!(c.phase, ConnectionPhase::Closed);
}

#[test]
fn malformed_frame_closes_connection() {
    let mut c = Connection::new();
    c.phase = ConnectionPhase::Open;
    let frames = c.on_data(&[0x83, 0x00]);
    assert!(frames.is_empty());
    assert_eq!(c.phase, ConnectionPhase::Closed);
}

#[test]
fn unmasked_client_frame_closes_connection() {
    let mut c = Connection::new();
    c.phase = ConnectionPhase::Open;
    let frames = c.on_data(&[0x81, 0x02, 0x68, 0x69]);
    assert!(frames.is_empty());
    assert_eq!(c.phase, ConnectionPhase::Closed);
}

#[test]
fn mid_handshake_disconnect_leaves_others_untouched() {
    let mut reactor = Reactor::new();
    let first = reactor.accept_connection();
    let second = reactor.accept_connection();
    assert_ne!(first, second);

    // the first peer disconnects before sending its full headers
    let mut c = reactor.take_connection(first).unwrap();
    assert_eq!(c.phase, ConnectionPhase::AwaitingHandshake);
    c.peer_closed();
    assert_eq!(c.phase, ConnectionPhase::Closed);
    reactor.close_connection(first);

    assert_eq!(reactor.interest_of(first), None);
    assert_eq!(reactor.interest_of(second), Some(Interest::Read));
}

#[test]
fn tokens_strictly_increase() {
    let mut reactor = Reactor::new();
    let a = reactor.accept_connection();
    let b = reactor.accept_connection();
    reactor.close_connection(a);
    let c = reactor.accept_connection();
    assert!(a < b && b < c);
    assert_ne!(a, LISTENER_TOKEN);
}
