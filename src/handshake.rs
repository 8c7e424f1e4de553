use vstd::prelude::*;
use vstd::slice::slice_subrange;

use crate::error::ProtocolError;
use crate::lpstring::{read_string, string_outcome};
use crate::packet::{frame_body_fits, frame_bytes, login_disconnect, packet_body, status_response, LOGIN_DISCONNECT_JSON};
use crate::varint::{read_var_int, varint_complete, varint_read_len, varint_value};

verus! {

/// The phase a client asks for in its handshake.
#[derive(Debug, Clone, Copy, PartialEq, Eq, Structural)]
pub enum NextState {
    /// Server list ping: the server answers with its status document.
    Status,
    /// Login: the server answers with a disconnect message.
    Login,
}

/// A decoded handshake packet.
#[derive(Debug, Clone)]
pub struct Handshake {
    pub protocol_version: i32,
    pub server_address: String,
    pub server_port: u16,
    pub next_state: NextState,
}

/// The fields of a handshake, with the server address as characters.
pub struct HandshakeView {
    pub protocol_version: i32,
    pub server_address: Seq<char>,
    pub server_port: u16,
    pub next_state: NextState,
}

impl View for Handshake {
    type V = HandshakeView;

    open spec fn view(&self) -> HandshakeView {
        HandshakeView {
            protocol_version: self.protocol_version,
            server_address: self.server_address@,
            server_port: self.server_port,
            next_state: self.next_state,
        }
    }
}

/// The state a next-state byte selects, if any.
pub open spec fn next_state_of(b: u8) -> Option<NextState> {
    if b == 1 {
        Some(NextState::Status)
    } else if b == 2 {
        Some(NextState::Login)
    } else {
        None
    }
}

/// What reading a handshake body gives: packet id 0, the protocol version as a
/// varint, the server address as a string, the port as two big-endian bytes
/// and the next-state byte. Bytes after the next-state byte are ignored.
pub open spec fn handshake_outcome(s: Seq<u8>) -> Result<HandshakeView, ProtocolError> {
    if s.len() == 0 {
        Err(ProtocolError::Truncated)
    } else if s[0] != 0 {
        Err(ProtocolError::UnexpectedPacketId)
    } else {
        let a = s.skip(1);
        if !varint_complete(a) {
            Err(ProtocolError::MalformedVarint)
        } else {
            let b = a.skip(varint_read_len(a) as int);
            match string_outcome(b) {
                Err(e) => Err(e),
                Ok((address, used)) => {
                    let c = b.skip(used as int);
                    if c.len() < 3 {
                        Err(ProtocolError::Truncated)
                    } else {
                        match next_state_of(c[2]) {
                            None => Err(ProtocolError::InvalidNextState),
                            Some(next) => Ok(
                                HandshakeView {
                                    protocol_version: varint_value(a),
                                    server_address: address,
                                    server_port: (c[0] as int * 256 + c[1] as int) as u16,
                                    next_state: next,
                                },
                            ),
                        }
                    }
                },
            }
        }
    }
}

/// Relies on byteorder's `BigEndian::read_u16`: the first two bytes of `buf`,
/// most significant first. It panics on fewer than two bytes.
#[verifier::external_body]
fn read_u16_be(buf: &[u8]) -> (r: u16)
    requires
        buf@.len() >= 2,
    ensures
        r as int == buf@[0] as int * 256 + buf@[1] as int,
{
    <byteorder::BigEndian as byteorder::ByteOrder>::read_u16(buf)
}

/// Decodes the body of a handshake frame.
pub fn parse_handshake(body: &[u8]) -> (r: Result<Handshake, ProtocolError>)
    ensures
        match handshake_outcome(body@) {
            Ok(h) => r matches Ok(x) && x@ == h,
            Err(e) => r == Err::<Handshake, ProtocolError>(e),
        },
{
    if body.len() == 0 {
        return Err(ProtocolError::Truncated);
    }
    if body[0] != 0 {
        return Err(ProtocolError::UnexpectedPacketId);
    }
    let mut rest: &[u8] = slice_subrange(body, 1, body.len());
    assert(rest@ =~= body@.skip(1));
    let protocol_version = match read_var_int(&mut rest) {
        Ok(v) => v,
        Err(e) => {
            return Err(e);
        },
    };
    let server_address = match read_string(&mut rest) {
        Ok(t) => t,
        Err(e) => {
            return Err(e);
        },
    };
    if rest.len() < 3 {
        return Err(ProtocolError::Truncated);
    }
    let server_port = read_u16_be(rest);
    let next_state = if rest[2] == 1 {
        NextState::Status
    } else if rest[2] == 2 {
        NextState::Login
    } else {
        return Err(ProtocolError::InvalidNextState);
    };
    let h = Handshake { protocol_version, server_address, server_port, next_state };
    assert(server_port == (rest@[0] as int * 256 + rest@[1] as int) as u16);
    Ok(h)
}

/// The framed reply to `handshake`: the status document `status_json` for a
/// status request, the disconnect message for a login attempt.
pub fn respond(handshake: &Handshake, status_json: String) -> (r: Vec<u8>)
    requires
        frame_body_fits(packet_body(status_json@).len()),
    ensures
        handshake.next_state == NextState::Status ==> r@ == frame_bytes(
            packet_body(status_json@),
        ),
        handshake.next_state == NextState::Login ==> r@ == frame_bytes(
            packet_body(LOGIN_DISCONNECT_JSON@),
        ),
{
    match handshake.next_state {
        NextState::Status => status_response(status_json),
        NextState::Login => login_disconnect(),
    }
}

} // verus!
