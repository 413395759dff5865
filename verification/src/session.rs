//! The decisions of a chat session.
//!
//! The network side of a session (the iroh endpoint, the streams, stdin and
//! the timeouts) runs outside this library.  It hands every event to [`step`],
//! which moves the session from the handshake through the confirmation of the
//! pairing code to the chat, and carries out the action it answers.  `step`
//! is built from these decisions:
//!
//! - [`pairing_code_for`] checks the peer's handshake frame and computes the
//!   pairing code to display;
//! - [`confirmation_matches`] decides whether the user typed that code back,
//!   and [`check_peer_ack`] whether the peer acknowledged it;
//! - [`on_received_frame`] says what to do with a frame from the peer;
//! - [`on_input_line`] says what to do with a line typed by the user;
//! - [`check_ticket_line`], [`trim_ticket`] and [`parse_ticket`] prepare the
//!   ticket.
use vstd::prelude::*;
use vstd::utf8::{decode_utf8, encode_utf8, valid_utf8};
use vstd::std_specs::iter::IteratorSpec;
use vstd::string::StringSliceAdditionalSpecFns;
use crate::frame::{Frame, FrameType, MAX_PAYLOAD};
use crate::pairing::{NONCE_LEN, compute_sas, format_sas, sas_code, spec_compute_sas};
use crate::sanitize::{is_terminal_safe, sanitize_for_terminal, sanitized};
use iroh_tickets::endpoint::EndpointTicket;
use iroh_tickets::ParseError;

verus! {

broadcast use vstd::string::group_string_axioms;

/// The application protocol identifier (ALPN): `/bluewren/0.2`.
pub const ALPN: [u8; 13] = [0x2f, 0x62, 0x6c, 0x75, 0x65, 0x77, 0x72, 0x65, 0x6e, 0x2f, 0x30, 0x2e, 0x32];

/// The line that ends a session: `/quit`.
pub const QUIT_COMMAND: [u8; 5] = [0x2f, 0x71, 0x75, 0x69, 0x74];

/// The payload of the control frame that tells the peer the session ends: `close`.
pub const CLOSE_PAYLOAD: [u8; 5] = [0x63, 0x6c, 0x6f, 0x73, 0x65];

/// The payload of the control frame that acknowledges a confirmed pairing code
/// (AckSas, control code 0x02).
pub const ACK_SAS_PAYLOAD: [u8; 1] = [0x02];

// ---------------------------------------------------------------------------
// The pairing handshake
// ---------------------------------------------------------------------------

/// Why the peer's handshake frame was refused.
#[derive(Debug, Clone, Copy, PartialEq, Eq, Structural)]
pub enum HandshakeError {
    /// The first frame from the peer was not a handshake frame.
    UnexpectedFrameType(FrameType),
    /// The peer's nonce does not have [`NONCE_LEN`] bytes.
    BadNonceLength(usize),
    /// The peer answered the confirmation with a control frame other than the
    /// acknowledgement: it did not confirm the pairing code.
    PeerDeclined,
}

/// The pairing code that the peer's handshake frame leads to, or why the
/// frame is refused: it must be a `SasHandshake` frame with a nonce of
/// [`NONCE_LEN`] bytes.
pub open spec fn handshake_code(
    local_id: Seq<u8>,
    remote_id: Seq<u8>,
    local_nonce: Seq<u8>,
    exported: Seq<u8>,
    remote_frame: Frame,
) -> Result<Seq<char>, HandshakeError> {
    if remote_frame.frame_type != FrameType::SasHandshake {
        Err(HandshakeError::UnexpectedFrameType(remote_frame.frame_type))
    } else if remote_frame.payload@.len() != NONCE_LEN {
        Err(HandshakeError::BadNonceLength(remote_frame.payload@.len() as usize))
    } else {
        Ok(
            sas_code(
                spec_compute_sas(
                    local_id,
                    remote_id,
                    ALPN@,
                    local_nonce,
                    remote_frame.payload@,
                    exported,
                ) as u32,
            ),
        )
    }
}

/// Checks the peer's handshake frame and computes the pairing code to show.
///
/// The frame must be a `SasHandshake` frame that carries a nonce of
/// [`NONCE_LEN`] bytes; the code is computed over both endpoint ids, [`ALPN`],
/// both nonces and the keying material exported from the TLS session, and
/// formatted as `XXXXX-XXXXX`.
pub fn pairing_code_for(
    local_id: &[u8],
    remote_id: &[u8],
    local_nonce: &[u8],
    exported: &[u8],
    remote_frame: &Frame,
) -> (r: Result<String, HandshakeError>)
    ensures
        match handshake_code(local_id@, remote_id@, local_nonce@, exported@, *remote_frame) {
            Ok(c) => r matches Ok(code) && code@ == c,
            Err(e) => r matches Err(e2) && e2 == e,
        },
{
    if remote_frame.frame_type != FrameType::SasHandshake {
        return Err(HandshakeError::UnexpectedFrameType(remote_frame.frame_type));
    }
    if remote_frame.payload.len() != NONCE_LEN {
        return Err(HandshakeError::BadNonceLength(remote_frame.payload.len()));
    }
    let sas = compute_sas(
        local_id,
        remote_id,
        &ALPN,
        local_nonce,
        remote_frame.payload.as_slice(),
        exported,
    );
    Ok(format_sas(sas))
}

/// Whether the line typed by the user is the pairing code that was shown,
/// surrounding whitespace aside.  A bare Enter never confirms.
pub fn confirmation_matches(entered: &str, code: &str) -> (r: bool)
    ensures
        r == (trimmed(entered@) == code@),
{
    let typed = chars_of(entered);
    let (start, end) = trim_bounds(&typed);
    let expected = chars_of(code);
    let ghost t = typed@.subrange(start as int, end as int);
    assert(t == trimmed(entered@));
    if end - start != expected.len() {
        assert(t.len() != code@.len());
        return false;
    }
    let mut i: usize = 0;
    while i < expected.len()
        invariant
            start <= end <= typed@.len(),
            end - start == expected@.len(),
            i <= expected@.len(),
            t == typed@.subrange(start as int, end as int),
            t == trimmed(entered@),
            expected@ == code@,
            forall|k: int| 0 <= k < i ==> t[k] == expected@[k],
        decreases expected@.len() - i,
    {
        if typed[start + i] != expected[i] {
            assert(t[i as int] != expected@[i as int]);
            return false;
        }
        i = i + 1;
    }
    assert(t == expected@);
    true
}

/// The peer's answer to the pairing confirmation: its acknowledgement, a
/// refusal (another control frame), or a frame out of place.
pub open spec fn peer_ack(frame: Frame) -> Result<(), HandshakeError> {
    if frame.frame_type != FrameType::Control {
        Err(HandshakeError::UnexpectedFrameType(frame.frame_type))
    } else if frame.payload@ == ACK_SAS_PAYLOAD@ {
        Ok(())
    } else {
        Err(HandshakeError::PeerDeclined)
    }
}

/// Checks the peer's answer to the pairing confirmation.
///
/// After both users typed the code back, each side sends a control frame
/// carrying [`ACK_SAS_PAYLOAD`]; the chat starts only once the peer's
/// acknowledgement has arrived.  Any other control frame (such as `close`)
/// means the peer did not confirm, and any other frame type is out of place.
pub fn check_peer_ack(frame: &Frame) -> (r: Result<(), HandshakeError>)
    ensures
        r == peer_ack(*frame),
{
    if frame.frame_type != FrameType::Control {
        return Err(HandshakeError::UnexpectedFrameType(frame.frame_type));
    }
    if frame.payload.len() == 1 && frame.payload[0] == ACK_SAS_PAYLOAD[0] {
        assert(frame.payload@ == ACK_SAS_PAYLOAD@);
        Ok(())
    } else {
        assert(frame.payload@ != ACK_SAS_PAYLOAD@) by {
            if frame.payload@ == ACK_SAS_PAYLOAD@ {
                assert(frame.payload@[0] == ACK_SAS_PAYLOAD@[0]);
            }
        }
        Err(HandshakeError::PeerDeclined)
    }
}

// ---------------------------------------------------------------------------
// The chat itself
// ---------------------------------------------------------------------------

/// The text that `String::from_utf8_lossy` makes of `bytes`.
pub uninterp spec fn utf8_lossy(bytes: Seq<u8>) -> Seq<char>;

/// `String::from_utf8_lossy` (std): decodes UTF-8, replacing every invalid
/// sequence with U+FFFD.
///
/// The result is named `utf8_lossy(bytes)`; the contract adds what the
/// documentation states plainly: valid UTF-8 is decoded as it is.  How invalid
/// sequences are replaced is left unsaid.
#[verifier::external_body]
fn decode_lossy(bytes: &[u8]) -> (s: String)
    ensures
        s@ == utf8_lossy(bytes@),
        valid_utf8(bytes@) ==> s@ == decode_utf8(bytes@),
{
    String::from_utf8_lossy(bytes).into_owned()
}

/// What to do with a frame received during the chat.
pub enum Incoming {
    /// Print this text as a message from the peer.
    Show(String),
    /// Nothing to show (keepalive).
    Ignore,
    /// The peer ends the session.
    PeerClosed,
    /// A handshake frame outside the handshake: warn and go on.
    StrayHandshake,
}

/// Decides what to do with a frame received during the chat.
///
/// A message is decoded as UTF-8 (invalid sequences become U+FFFD) and always
/// sanitized before it is shown.
pub fn on_received_frame(frame: &Frame) -> (r: Incoming)
    ensures
        frame.frame_type == FrameType::Message ==> (r matches Incoming::Show(text) && text@
            == sanitized(utf8_lossy(frame.payload@))),
        r matches Incoming::Show(text) ==> forall|k: int|
            0 <= k < text@.len() ==> is_terminal_safe(#[trigger] text@[k]),
        frame.frame_type == FrameType::Dummy ==> r is Ignore,
        frame.frame_type == FrameType::Control ==> r is PeerClosed,
        frame.frame_type == FrameType::SasHandshake ==> r is StrayHandshake,
{
    match frame.frame_type {
        FrameType::Message => {
            let text = decode_lossy(frame.payload.as_slice());
            Incoming::Show(sanitize_for_terminal(text.as_str()))
        },
        FrameType::Dummy => Incoming::Ignore,
        FrameType::Control => Incoming::PeerClosed,
        FrameType::SasHandshake => Incoming::StrayHandshake,
    }
}

/// What to do with a line typed by the user during the chat.
pub enum Outgoing {
    /// The line is empty: show the prompt again.
    Reprompt,
    /// `/quit`: send a control frame with [`CLOSE_PAYLOAD`] and stop.
    Quit,
    /// The line does not fit in one frame: warn and show the prompt again.
    TooLong,
    /// Send these bytes as a message.
    Send(Vec<u8>),
}

/// A line without its trailing line-feed and carriage-return bytes.
pub open spec fn trim_line_end(b: Seq<u8>) -> Seq<u8>
    decreases b.len(),
{
    if b.len() > 0 && (b.last() == 0x0a || b.last() == 0x0d) {
        trim_line_end(b.drop_last())
    } else {
        b
    }
}

/// Decides what to do with a line typed by the user.
///
/// Trailing `\n` and `\r` are removed first.  An empty line is skipped,
/// `/quit` ends the session, a line longer than [`MAX_PAYLOAD`] bytes is
/// refused, and anything else is sent as its UTF-8 bytes.
pub fn on_input_line(line: &str) -> (r: Outgoing)
    ensures
        ({
            let t = trim_line_end(line.spec_bytes());
            &&& t.len() == 0 ==> r is Reprompt
            &&& t.len() != 0 && t == QUIT_COMMAND@ ==> r is Quit
            &&& t.len() != 0 && t != QUIT_COMMAND@ && t.len() > MAX_PAYLOAD ==> r is TooLong
            &&& t.len() != 0 && t != QUIT_COMMAND@ && t.len() <= MAX_PAYLOAD ==> (r matches Outgoing::Send(
                bytes,
            ) && bytes@ == t)
        }),
        r matches Outgoing::Send(bytes) ==> 0 < bytes@.len() <= MAX_PAYLOAD,
{
    let bytes = line.as_bytes();
    let mut end = bytes.len();
    assert(bytes@.subrange(0, end as int) == bytes@);
    while end > 0 && (bytes[end - 1] == 0x0a || bytes[end - 1] == 0x0d)
        invariant
            end <= bytes@.len(),
            trim_line_end(bytes@.subrange(0, end as int)) == trim_line_end(bytes@),
        decreases end,
    {
        assert(bytes@.subrange(0, end as int).drop_last() == bytes@.subrange(0, end - 1));
        end = end - 1;
    }
    assert(bytes@.subrange(0, bytes@.len() as int) == bytes@);
    let ghost t = bytes@.subrange(0, end as int);
    assert(trim_line_end(t) == t);
    if end == 0 {
        return Outgoing::Reprompt;
    }
    if end == QUIT_COMMAND.len() && bytes[0] == QUIT_COMMAND[0] && bytes[1] == QUIT_COMMAND[1]
        && bytes[2] == QUIT_COMMAND[2] && bytes[3] == QUIT_COMMAND[3] && bytes[4]
        == QUIT_COMMAND[4] {
        assert(t == QUIT_COMMAND@);
        return Outgoing::Quit;
    }
    assert(t != QUIT_COMMAND@) by {
        if end == 5 {
            if t == QUIT_COMMAND@ {
                assert(t[0] == bytes@[0]);
                assert(t[1] == bytes@[1]);
                assert(t[2] == bytes@[2]);
                assert(t[3] == bytes@[3]);
                assert(t[4] == bytes@[4]);
            }
        }
    }
    if end > MAX_PAYLOAD {
        return Outgoing::TooLong;
    }
    let mut out: Vec<u8> = Vec::with_capacity(end);
    let mut i: usize = 0;
    while i < end
        invariant
            end <= bytes@.len(),
            i <= end,
            out@ == bytes@.subrange(0, i as int),
        decreases end - i,
    {
        out.push(bytes[i]);
        i = i + 1;
    }
    Outgoing::Send(out)
}

// ---------------------------------------------------------------------------
// The course of a session
// ---------------------------------------------------------------------------

/// What the pairing code is computed from, fixed once the connection stands:
/// both endpoint ids, this side's nonce (already sent to the peer) and the
/// keying material exported from the TLS session.
pub struct PairingInputs {
    pub local_id: Vec<u8>,
    pub remote_id: Vec<u8>,
    pub local_nonce: Vec<u8>,
    pub exported: Vec<u8>,
}

/// Where a session stands.
pub enum Phase {
    /// This side's nonce is sent; the peer's handshake frame is awaited.
    AwaitingPeerNonce,
    /// The code is shown and the user must type it back; `peer_acked` tells
    /// whether the peer's acknowledgement already came in.
    AwaitingConfirmation { code: String, peer_acked: bool },
    /// The user confirmed; the peer's acknowledgement is awaited.
    AwaitingPeerAck,
    /// Both sides confirmed the code: messages flow.
    Chatting,
    /// The session is over.
    Closed,
}

/// Something that happened: a frame from the peer or a line from the user.
pub enum Event {
    PeerFrame(Frame),
    UserLine(String),
}

/// Why a session ends.
#[derive(Debug, Clone, Copy, PartialEq, Eq, Structural)]
pub enum EndReason {
    /// The user typed `/quit`.
    Quit,
    /// The user typed something other than the pairing code.
    CodeMismatch,
    /// The peer closed the session.
    PeerClosed,
    /// The handshake failed.
    Handshake(HandshakeError),
}

/// What the network side must do after an event.
pub enum Action {
    /// Show the pairing code and ask the user to type it back.
    ShowCode(String),
    /// Send the acknowledgement (a control frame with [`ACK_SAS_PAYLOAD`]);
    /// when `chat_starts`, the chat begins right after.
    SendAck { chat_starts: bool },
    /// The peer acknowledged: the chat begins.
    StartChat,
    /// Print this text as a message from the peer.
    ShowMessage(String),
    /// Send these bytes as a message.
    SendMessage(Vec<u8>),
    /// Show the prompt again.
    Reprompt,
    /// Warn that the line is too long, then show the prompt again.
    TooLong,
    /// Warn about a handshake frame during the chat.
    WarnStray,
    /// Nothing to do.
    Nothing,
    /// Send a control frame with [`CLOSE_PAYLOAD`], then end the session.
    SendClose(EndReason),
    /// End the session without sending anything.
    End(EndReason),
}

/// Whether a phase is the chat.
pub open spec fn is_chatting(p: Phase) -> bool {
    p is Chatting
}

/// The only ways into the chat: the peer's acknowledgement after this side
/// confirmed, or this side's confirmation after the peer acknowledged.
pub open spec fn entered_chat(phase: Phase, event: Event) -> bool {
    match (phase, event) {
        (Phase::AwaitingPeerAck, Event::PeerFrame(f)) => peer_ack(f) is Ok,
        (Phase::AwaitingConfirmation { code, peer_acked }, Event::UserLine(l)) => peer_acked
            && trimmed(l@) == code@,
        _ => false,
    }
}

/// Advances a session by one event.
///
/// No message is sent or shown before the chat, and the chat is reached only
/// once the user typed the pairing code back and the peer acknowledged it.
/// A wrong code ends the session with a close frame, without a retry.
pub fn step(phase: Phase, event: Event, inputs: &PairingInputs) -> (r: (Phase, Action))
    ensures
        // Before the code is shown: only the peer's handshake frame counts.
        phase is AwaitingPeerNonce ==> match event {
            Event::PeerFrame(f) => match handshake_code(
                inputs.local_id@,
                inputs.remote_id@,
                inputs.local_nonce@,
                inputs.exported@,
                f,
            ) {
                Ok(c) => (r.0 matches Phase::AwaitingConfirmation { code, peer_acked } && code@ == c
                    && !peer_acked) && (r.1 matches Action::ShowCode(s) && s@ == c),
                Err(e) => r.0 is Closed && r.1 == Action::End(EndReason::Handshake(e)),
            },
            Event::UserLine(_) => r.0 is AwaitingPeerNonce && r.1 is Nothing,
        },
        // The code is shown: the user's line decides, the peer may acknowledge first.
        phase matches Phase::AwaitingConfirmation { code, peer_acked } ==> match event {
            Event::UserLine(l) => if trimmed(l@) == code@ {
                (if peer_acked {
                    r.0 is Chatting
                } else {
                    r.0 is AwaitingPeerAck
                }) && r.1 == Action::SendAck { chat_starts: peer_acked }
            } else {
                r.0 is Closed && r.1 == Action::SendClose(EndReason::CodeMismatch)
            },
            Event::PeerFrame(f) => match peer_ack(f) {
                Ok(_) => (r.0 matches Phase::AwaitingConfirmation { code: c2, peer_acked: a2 }
                    && c2@ == code@ && a2) && r.1 is Nothing,
                Err(e) => r.0 is Closed && r.1 == Action::End(EndReason::Handshake(e)),
            },
        },
        // Confirmed here: the peer's acknowledgement opens the chat.
        phase is AwaitingPeerAck ==> match event {
            Event::PeerFrame(f) => match peer_ack(f) {
                Ok(_) => r.0 is Chatting && r.1 is StartChat,
                Err(e) => r.0 is Closed && r.1 == Action::End(EndReason::Handshake(e)),
            },
            Event::UserLine(_) => r.0 is AwaitingPeerAck && r.1 is Nothing,
        },
        // The chat.
        phase is Chatting ==> match event {
            Event::PeerFrame(f) => if f.frame_type == FrameType::Message {
                r.0 is Chatting && (r.1 matches Action::ShowMessage(text) && text@ == sanitized(
                    utf8_lossy(f.payload@),
                ))
            } else if f.frame_type == FrameType::Dummy {
                r.0 is Chatting && r.1 is Nothing
            } else if f.frame_type == FrameType::Control {
                r.0 is Closed && r.1 == Action::End(EndReason::PeerClosed)
            } else {
                r.0 is Chatting && r.1 is WarnStray
            },
            Event::UserLine(l) => {
                let t = trim_line_end(encode_utf8(l@));
                &&& t.len() == 0 ==> r.0 is Chatting && r.1 is Reprompt
                &&& t.len() != 0 && t == QUIT_COMMAND@ ==> r.0 is Closed && r.1 == Action::SendClose(
                    EndReason::Quit,
                )
                &&& t.len() != 0 && t != QUIT_COMMAND@ && t.len() > MAX_PAYLOAD ==> r.0 is Chatting
                    && r.1 is TooLong
                &&& t.len() != 0 && t != QUIT_COMMAND@ && t.len() <= MAX_PAYLOAD ==> r.0 is Chatting
                    && (r.1 matches Action::SendMessage(b) && b@ == t)
            },
        },
        phase is Closed ==> r.0 is Closed && r.1 is Nothing,
        // No message is sent or shown outside the chat.
        r.1 is SendMessage ==> is_chatting(phase),
        r.1 is ShowMessage ==> is_chatting(phase),
        // The chat is entered only with the code typed back and the peer's acknowledgement.
        is_chatting(r.0) && !is_chatting(phase) ==> entered_chat(phase, event),
{
    match phase {
        Phase::AwaitingPeerNonce => match event {
            Event::PeerFrame(f) => {
                match pairing_code_for(
                    inputs.local_id.as_slice(),
                    inputs.remote_id.as_slice(),
                    inputs.local_nonce.as_slice(),
                    inputs.exported.as_slice(),
                    &f,
                ) {
                    Ok(code) => {
                        let shown = code.clone();
                        (Phase::AwaitingConfirmation { code, peer_acked: false }, Action::ShowCode(shown))
                    },
                    Err(e) => (Phase::Closed, Action::End(EndReason::Handshake(e))),
                }
            },
            Event::UserLine(_) => (Phase::AwaitingPeerNonce, Action::Nothing),
        },
        Phase::AwaitingConfirmation { code, peer_acked } => match event {
            Event::UserLine(l) => {
                if confirmation_matches(l.as_str(), code.as_str()) {
                    if peer_acked {
                        (Phase::Chatting, Action::SendAck { chat_starts: true })
                    } else {
                        (Phase::AwaitingPeerAck, Action::SendAck { chat_starts: false })
                    }
                } else {
                    (Phase::Closed, Action::SendClose(EndReason::CodeMismatch))
                }
            },
            Event::PeerFrame(f) => match check_peer_ack(&f) {
                Ok(()) => (Phase::AwaitingConfirmation { code, peer_acked: true }, Action::Nothing),
                Err(e) => (Phase::Closed, Action::End(EndReason::Handshake(e))),
            },
        },
        Phase::AwaitingPeerAck => match event {
            Event::PeerFrame(f) => match check_peer_ack(&f) {
                Ok(()) => (Phase::Chatting, Action::StartChat),
                Err(e) => (Phase::Closed, Action::End(EndReason::Handshake(e))),
            },
            Event::UserLine(_) => (Phase::AwaitingPeerAck, Action::Nothing),
        },
        Phase::Chatting => match event {
            Event::PeerFrame(f) => match on_received_frame(&f) {
                Incoming::Show(text) => (Phase::Chatting, Action::ShowMessage(text)),
                Incoming::Ignore => (Phase::Chatting, Action::Nothing),
                Incoming::PeerClosed => (Phase::Closed, Action::End(EndReason::PeerClosed)),
                Incoming::StrayHandshake => (Phase::Chatting, Action::WarnStray),
            },
            Event::UserLine(l) => match on_input_line(l.as_str()) {
                Outgoing::Reprompt => (Phase::Chatting, Action::Reprompt),
                Outgoing::Quit => (Phase::Closed, Action::SendClose(EndReason::Quit)),
                Outgoing::TooLong => (Phase::Chatting, Action::TooLong),
                Outgoing::Send(bytes) => (Phase::Chatting, Action::SendMessage(bytes)),
            },
        },
        Phase::Closed => (Phase::Closed, Action::Nothing),
    }
}

// ---------------------------------------------------------------------------
// The ticket text
// ---------------------------------------------------------------------------

/// Why the ticket could not be read.
#[derive(Debug, Clone, Copy, PartialEq, Eq, Structural)]
pub enum TicketError {
    /// The line read from stdin holds nothing but whitespace.
    Empty,
    /// The text is not an endpoint ticket.
    Malformed,
}

/// Unicode's White_Space property, as listed in PropList.txt.
pub open spec fn is_white_space(c: char) -> bool {
    let u = c as u32;
    (0x09 <= u && u <= 0x0d) || u == 0x20 || u == 0x85 || u == 0xa0 || u == 0x1680 || (0x2000 <= u
        && u <= 0x200a) || u == 0x2028 || u == 0x2029 || u == 0x202f || u == 0x205f || u == 0x3000
}

/// `char::is_whitespace` (std): true for the characters with Unicode's
/// White_Space property, which PropList.txt lists as U+0009..=U+000D, U+0020,
/// U+0085, U+00A0, U+1680, U+2000..=U+200A, U+2028, U+2029, U+202F, U+205F
/// and U+3000.
pub assume_specification[ char::is_whitespace ](c: char) -> (r: bool)
    ensures
        r == is_white_space(c),
;

/// `s` without its leading whitespace.
pub open spec fn trim_start_ws(s: Seq<char>) -> Seq<char>
    decreases s.len(),
{
    if s.len() > 0 && is_white_space(s[0]) {
        trim_start_ws(s.drop_first())
    } else {
        s
    }
}

/// `s` without its trailing whitespace.
pub open spec fn trim_end_ws(s: Seq<char>) -> Seq<char>
    decreases s.len(),
{
    if s.len() > 0 && is_white_space(s.last()) {
        trim_end_ws(s.drop_last())
    } else {
        s
    }
}

/// `s` without leading and trailing whitespace, as `str::trim` leaves it.
pub open spec fn trimmed(s: Seq<char>) -> Seq<char> {
    trim_end_ws(trim_start_ws(s))
}

/// The characters of `text`, in order.
fn chars_of(text: &str) -> (v: Vec<char>)
    ensures
        v@ == text@,
{
    let mut v: Vec<char> = Vec::new();
    let mut it = text.chars();
    let ghost s = text@;
    assert(s.skip(0) == s);
    loop
        invariant
            v@.len() <= s.len(),
            v@ == s.subrange(0, v@.len() as int),
            it.remaining() == s.skip(v@.len() as int),
        ensures
            v@ == s,
        decreases s.len() - v@.len(),
    {
        match it.next() {
            None => {
                assert(s.subrange(0, s.len() as int) == s);
                break;
            },
            Some(c) => {
                assert(s.skip(v@.len() as int).drop_first() == s.skip((v@.len() + 1) as int));
                v.push(c);
                assert(v@ == s.subrange(0, v@.len() as int));
            },
        }
    }
    v
}

/// The bounds of `s` without its leading and trailing whitespace.
fn trim_bounds(s: &Vec<char>) -> (r: (usize, usize))
    ensures
        r.0 <= r.1 <= s@.len(),
        s@.subrange(r.0 as int, r.1 as int) == trimmed(s@),
{
    let n = s.len();
    let mut start: usize = 0;
    assert(s@.skip(0) == s@);
    while start < n && s[start].is_whitespace()
        invariant
            n == s@.len(),
            start <= n,
            trim_start_ws(s@.skip(start as int)) == trim_start_ws(s@),
        decreases n - start,
    {
        assert(s@.skip(start as int).drop_first() == s@.skip(start + 1));
        start = start + 1;
    }
    assert(trim_start_ws(s@.skip(start as int)) == s@.skip(start as int));
    assert(s@.skip(start as int) == s@.subrange(start as int, n as int));
    let mut end: usize = n;
    while end > start && s[end - 1].is_whitespace()
        invariant
            n == s@.len(),
            start <= end <= n,
            trim_end_ws(s@.subrange(start as int, end as int)) == trimmed(s@),
        decreases end,
    {
        assert(s@.subrange(start as int, end as int).drop_last() == s@.subrange(
            start as int,
            end - 1,
        ));
        end = end - 1;
    }
    (start, end)
}

/// The ticket without leading and trailing whitespace, as `str::trim` leaves it.
pub fn trim_ticket(text: &str) -> (r: String)
    ensures
        r@ == trimmed(text@),
{
    let chars = chars_of(text);
    let (start, end) = trim_bounds(&chars);
    let mut out = String::new();
    let mut i = start;
    while i < end
        invariant
            start <= i <= end <= chars@.len(),
            out@ == chars@.subrange(start as int, i as int),
        decreases end - i,
    {
        out.push(chars[i]);
        i = i + 1;
    }
    out
}

/// Checks a ticket line read from stdin: a line of whitespace only is refused.
pub fn check_ticket_line(line: &str) -> (r: Result<(), TicketError>)
    ensures
        r is Err <==> trimmed(line@).len() == 0,
        r is Err ==> r == Err::<(), TicketError>(TicketError::Empty),
{
    let chars = chars_of(line);
    let (start, end) = trim_bounds(&chars);
    if start == end {
        Err(TicketError::Empty)
    } else {
        Ok(())
    }
}

#[verifier::external_type_specification]
#[verifier::external_body]
pub struct ExEndpointTicket(EndpointTicket);

#[verifier::external_type_specification]
#[verifier::external_body]
pub struct ExTicketParseError(ParseError);

/// Text that starts with `endpoint`, the kind prefix of an endpoint ticket.
pub open spec fn has_endpoint_prefix(s: Seq<char>) -> bool {
    s.len() >= 8 && s.subrange(0, 8) == "endpoint"@
}

/// Whether `EndpointTicket::from_str` accepts `text`: the `endpoint` prefix
/// followed by the base32 form of a ticket's postcard bytes.
pub uninterp spec fn endpoint_ticket_parses(text: Seq<char>) -> bool;

/// The ticket that `EndpointTicket::from_str` decodes from `text`, when it
/// accepts it.
pub uninterp spec fn decoded_ticket(text: Seq<char>) -> EndpointTicket;

/// `EndpointTicket::from_str` (iroh-tickets): decodes the `endpoint` prefix
/// followed by the base32 form of the ticket's bytes.
///
/// Whether a text decodes, and to which ticket, depends on the text alone; the
/// contract names them `endpoint_ticket_parses(text)` and
/// `decoded_ticket(text)`, and adds what `Ticket::decode_string` shows plainly:
/// text without the `endpoint` prefix is refused.  Which address a ticket
/// holds is left unsaid.
#[verifier::external_body]
fn decode_endpoint_ticket(text: &str) -> (r: Result<EndpointTicket, ParseError>)
    ensures
        r is Ok <==> endpoint_ticket_parses(text@),
        r matches Ok(ticket) ==> ticket == decoded_ticket(text@),
        !has_endpoint_prefix(text@) ==> r is Err,
{
    text.parse::<EndpointTicket>()
}

/// Reads an endpoint ticket: the text is trimmed of surrounding whitespace and
/// decoded; anything that does not decode is `Malformed`.
pub fn parse_ticket(text: &str) -> (r: Result<EndpointTicket, TicketError>)
    ensures
        r is Ok <==> endpoint_ticket_parses(trimmed(text@)),
        r matches Ok(ticket) ==> ticket == decoded_ticket(trimmed(text@)),
        !has_endpoint_prefix(trimmed(text@)) ==> r matches Err(TicketError::Malformed),
        r is Err ==> r matches Err(TicketError::Malformed),
{
    let clean = trim_ticket(text);
    match decode_endpoint_ticket(clean.as_str()) {
        Ok(ticket) => Ok(ticket),
        Err(_) => Err(TicketError::Malformed),
    }
}

} // verus!
