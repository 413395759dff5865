use bluewren::session::{parse_ticket, step, Action, EndReason, Event, PairingInputs, Phase};
use iroh::{EndpointAddr, SecretKey};
use iroh_tickets::endpoint::EndpointTicket;
use bluewren::cli::{Cli, ConnectOpts, Mode, TicketSource};
use bluewren::frame::{Frame, FrameType, MAX_PAYLOAD};
use bluewren::pairing::{compute_sas, format_sas, NONCE_LEN};
use bluewren::session::{
    check_ticket_line, confirmation_matches, on_input_line, on_received_frame, pairing_code_for,
    trim_ticket, check_peer_ack, HandshakeError, ACK_SAS_PAYLOAD, Incoming, Outgoing, TicketError, ALPN, CLOSE_PAYLOAD,
    QUIT_COMMAND,
};

#[test]
fn alpn_and_control_payloads() {
    assert_eq!(&ALPN, b"/bluewren/0.2");
    assert_eq!(&QUIT_COMMAND, b"/quit");
    assert_eq!(&CLOSE_PAYLOAD, b"close");
}

#[test]
fn handshake_frame_gives_the_pairing_code() {
    let frame = Frame { frame_type: FrameType::SasHandshake, payload: vec![20u8; NONCE_LEN] };
    let code = pairing_code_for(&[1u8; 32], &[2u8; 32], &[10u8; NONCE_LEN], &[9u8; 32], &frame).unwrap();
    let expected =
        format_sas(compute_sas(&[1u8; 32], &[2u8; 32], &ALPN, &[10u8; 16], &[20u8; 16], &[9u8; 32]));
    assert_eq!(code, expected);
    assert_eq!(code.len(), 11);
    let other_side = Frame { frame_type: FrameType::SasHandshake, payload: vec![10u8; NONCE_LEN] };
    let code_b =
        pairing_code_for(&[2u8; 32], &[1u8; 32], &[20u8; NONCE_LEN], &[9u8; 32], &other_side).unwrap();
    assert_eq!(code, code_b);
}

#[test]
fn handshake_frame_errors() {
    let wrong_type = Frame { frame_type: FrameType::Message, payload: vec![0u8; NONCE_LEN] };
    assert_eq!(
        pairing_code_for(b"a", b"b", &[0u8; 16], &[0u8; 32], &wrong_type).err(),
        Some(HandshakeError::UnexpectedFrameType(FrameType::Message))
    );
    let short = Frame { frame_type: FrameType::SasHandshake, payload: vec![0u8; 15] };
    assert_eq!(
        pairing_code_for(b"a", b"b", &[0u8; 16], &[0u8; 32], &short).err(),
        Some(HandshakeError::BadNonceLength(15))
    );
}

#[test]
fn confirmation_requires_the_code() {
    assert!(confirmation_matches("00012-34567\n", "00012-34567"));
    assert!(confirmation_matches("  00012-34567 \r\n", "00012-34567"));
    assert!(!confirmation_matches("\n", "00012-34567"));
    assert!(!confirmation_matches("00012-34568\n", "00012-34567"));
    assert!(!confirmation_matches("00012-3456\n", "00012-34567"));
}

#[test]
fn received_frames_become_actions() {
    let msg = Frame { frame_type: FrameType::Message, payload: b"hi\x1b[2Jthere".to_vec() };
    match on_received_frame(&msg) {
        Incoming::Show(text) => assert_eq!(text, "hithere"),
        _ => panic!("a message is shown"),
    }
    let invalid = Frame { frame_type: FrameType::Message, payload: vec![b'a', 0xFF, b'b'] };
    match on_received_frame(&invalid) {
        Incoming::Show(text) => assert_eq!(text, "a\u{FFFD}b"),
        _ => panic!("a message is shown"),
    }
    let dummy = Frame { frame_type: FrameType::Dummy, payload: vec![] };
    assert!(matches!(on_received_frame(&dummy), Incoming::Ignore));
    let control = Frame { frame_type: FrameType::Control, payload: b"close".to_vec() };
    assert!(matches!(on_received_frame(&control), Incoming::PeerClosed));
    let stray = Frame { frame_type: FrameType::SasHandshake, payload: vec![0; 16] };
    assert!(matches!(on_received_frame(&stray), Incoming::StrayHandshake));
}

#[test]
fn typed_lines_become_actions() {
    assert!(matches!(on_input_line("\n"), Outgoing::Reprompt));
    assert!(matches!(on_input_line("\r\n"), Outgoing::Reprompt));
    assert!(matches!(on_input_line("/quit\n"), Outgoing::Quit));
    assert!(matches!(on_input_line("/quit"), Outgoing::Quit));
    match on_input_line("/quit now\n") {
        Outgoing::Send(bytes) => assert_eq!(bytes, b"/quit now"),
        _ => panic!("an ordinary line is sent"),
    }
    match on_input_line("héllo \r\n") {
        Outgoing::Send(bytes) => assert_eq!(bytes, "héllo ".as_bytes()),
        _ => panic!("an ordinary line is sent"),
    }
    let longest = "x".repeat(MAX_PAYLOAD);
    assert!(matches!(on_input_line(&longest), Outgoing::Send(_)));
    let too_long = "x".repeat(MAX_PAYLOAD + 1) + "\n";
    assert!(matches!(on_input_line(&too_long), Outgoing::TooLong));
}

#[test]
fn ticket_text_is_trimmed_and_checked() {
    assert_eq!(trim_ticket("  endpointabc\n"), "endpointabc");
    assert_eq!(trim_ticket("\u{3000}t\u{a0}"), "t");
    assert_eq!(trim_ticket(" \t\n"), "");
    assert_eq!(check_ticket_line(" \r\n"), Err(TicketError::Empty));
    assert_eq!(check_ticket_line(""), Err(TicketError::Empty));
    assert_eq!(check_ticket_line(" t \n"), Ok(()));
}

#[test]
fn ticket_source_follows_the_options() {
    let arg = ConnectOpts { ticket_stdin: false, ticket_arg: Some("t".to_string()) };
    assert_eq!(arg.ticket_source(), TicketSource::Argument);
    let pipe = ConnectOpts { ticket_stdin: true, ticket_arg: None };
    assert_eq!(pipe.ticket_source(), TicketSource::StdinLine);
    let prompt = ConnectOpts { ticket_stdin: false, ticket_arg: None };
    assert_eq!(prompt.ticket_source(), TicketSource::Prompt);
}

#[test]
fn log_filter_follows_the_flag() {
    let quiet = Cli { unsafe_debug_log_metadata: false, mode: Mode::Listen };
    assert_eq!(quiet.log_filter(), "bluewren=warn,iroh=warn");
    let loud = Cli { unsafe_debug_log_metadata: true, mode: Mode::Listen };
    assert_eq!(loud.log_filter(), "bluewren=debug,iroh=debug");
}

#[test]
fn tickets_are_parsed_after_trimming() {
    let id = SecretKey::from_bytes(&[7u8; 32]).public();
    let ticket = EndpointTicket::new(EndpointAddr::new(id));
    let text = format!("  {}\r\n", ticket);
    let parsed = parse_ticket(&text).expect("a ticket with surrounding whitespace parses");
    assert_eq!(parsed, ticket);
    assert_eq!(parse_ticket("not a ticket").err(), Some(TicketError::Malformed));
    assert_eq!(parse_ticket("   \n").err(), Some(TicketError::Malformed));
    assert_eq!(parse_ticket("endpointzzzz").err(), Some(TicketError::Malformed));
}

#[test]
fn peer_acknowledgement_is_checked() {
    let ack = Frame { frame_type: FrameType::Control, payload: vec![0x02] };
    assert_eq!(check_peer_ack(&ack), Ok(()));
    assert_eq!(ACK_SAS_PAYLOAD, [0x02]);
    let close = Frame { frame_type: FrameType::Control, payload: b"close".to_vec() };
    assert_eq!(check_peer_ack(&close), Err(HandshakeError::PeerDeclined));
    let long = Frame { frame_type: FrameType::Control, payload: vec![0x02, 0x00] };
    assert_eq!(check_peer_ack(&long), Err(HandshakeError::PeerDeclined));
    let message = Frame { frame_type: FrameType::Message, payload: vec![0x02] };
    assert_eq!(
        check_peer_ack(&message),
        Err(HandshakeError::UnexpectedFrameType(FrameType::Message))
    );
}

fn inputs(local: u8, remote: u8) -> PairingInputs {
    PairingInputs {
        local_id: vec![local; 32],
        remote_id: vec![remote; 32],
        local_nonce: vec![local; NONCE_LEN],
        exported: vec![0x77; 32],
    }
}

fn nonce_frame(byte: u8) -> Frame {
    Frame { frame_type: FrameType::SasHandshake, payload: vec![byte; NONCE_LEN] }
}

fn ack_frame() -> Frame {
    Frame { frame_type: FrameType::Control, payload: ACK_SAS_PAYLOAD.to_vec() }
}

#[test]
fn session_reaches_the_chat_only_after_both_confirm() {
    let me = inputs(1, 2);
    let (phase, action) = step(Phase::AwaitingPeerNonce, Event::PeerFrame(nonce_frame(2)), &me);
    let code = match action {
        Action::ShowCode(c) => c,
        _ => panic!("the code is shown"),
    };
    assert_eq!(code.len(), 11);
    let (phase, action) = step(phase, Event::UserLine("hello\n".to_string()), &me);
    assert!(matches!(phase, Phase::Closed));
    assert!(matches!(action, Action::SendClose(EndReason::CodeMismatch)));

    let (phase, _) = step(Phase::AwaitingPeerNonce, Event::PeerFrame(nonce_frame(2)), &me);
    let (phase, action) = step(phase, Event::UserLine(format!("{}\n", code)), &me);
    assert!(matches!(phase, Phase::AwaitingPeerAck));
    assert!(matches!(action, Action::SendAck { chat_starts: false }));
    let (phase, action) = step(phase, Event::UserLine("early message\n".to_string()), &me);
    assert!(matches!(phase, Phase::AwaitingPeerAck));
    assert!(matches!(action, Action::Nothing));
    let (phase, action) = step(phase, Event::PeerFrame(ack_frame()), &me);
    assert!(matches!(phase, Phase::Chatting));
    assert!(matches!(action, Action::StartChat));
    let (phase, action) = step(phase, Event::UserLine("hi\n".to_string()), &me);
    assert!(matches!(phase, Phase::Chatting));
    match action {
        Action::SendMessage(b) => assert_eq!(b, b"hi"),
        _ => panic!("a chat line is sent"),
    }
    let (phase, action) = step(phase, Event::UserLine("/quit\n".to_string()), &me);
    assert!(matches!(phase, Phase::Closed));
    assert!(matches!(action, Action::SendClose(EndReason::Quit)));
}

#[test]
fn peer_may_acknowledge_before_the_user_confirms() {
    let me = inputs(3, 4);
    let (phase, action) = step(Phase::AwaitingPeerNonce, Event::PeerFrame(nonce_frame(4)), &me);
    let code = match action {
        Action::ShowCode(c) => c,
        _ => panic!("the code is shown"),
    };
    let (phase, action) = step(phase, Event::PeerFrame(ack_frame()), &me);
    assert!(matches!(phase, Phase::AwaitingConfirmation { peer_acked: true, .. }));
    assert!(matches!(action, Action::Nothing));
    let (phase, action) = step(phase, Event::UserLine(code), &me);
    assert!(matches!(phase, Phase::Chatting));
    assert!(matches!(action, Action::SendAck { chat_starts: true }));
}

#[test]
fn messages_before_the_chat_end_the_handshake() {
    let me = inputs(1, 2);
    let msg = Frame { frame_type: FrameType::Message, payload: b"too early".to_vec() };
    let (phase, action) = step(Phase::AwaitingPeerNonce, Event::PeerFrame(msg), &me);
    assert!(matches!(phase, Phase::Closed));
    assert!(matches!(
        action,
        Action::End(EndReason::Handshake(HandshakeError::UnexpectedFrameType(FrameType::Message)))
    ));
    let close = Frame { frame_type: FrameType::Control, payload: CLOSE_PAYLOAD.to_vec() };
    let (phase, action) = step(Phase::AwaitingPeerAck, Event::PeerFrame(close), &me);
    assert!(matches!(phase, Phase::Closed));
    assert!(matches!(action, Action::End(EndReason::Handshake(HandshakeError::PeerDeclined))));
    let (phase, action) = step(Phase::Chatting, Event::PeerFrame(ack_frame()), &me);
    assert!(matches!(phase, Phase::Closed));
    assert!(matches!(action, Action::End(EndReason::PeerClosed)));
    let shown = Frame { frame_type: FrameType::Message, payload: b"a\x1b[2Jb".to_vec() };
    match step(Phase::Chatting, Event::PeerFrame(shown), &me).1 {
        Action::ShowMessage(t) => assert_eq!(t, "ab"),
        _ => panic!("a chat message is shown"),
    }
    let (phase, action) = step(Phase::Closed, Event::UserLine("x".to_string()), &me);
    assert!(matches!(phase, Phase::Closed));
    assert!(matches!(action, Action::Nothing));
}
