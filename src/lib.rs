//! Codec and handshake logic of a small block-game protocol front-end:
//! variable-length integers, length-prefixed strings, packet framing,
//! the handshake reader and the two responses the server can send.

mod buffer;
pub mod error;
pub mod varint;
pub mod lpstring;
pub mod packet;
pub mod handshake;

pub use error::ProtocolError;
pub use varint::{read_var_int, size_in_bytes, write_var_int};
pub use lpstring::{read_string, write_string};
pub use handshake::{parse_handshake, respond, Handshake, NextState};
pub use packet::{frame, frame_length, login_disconnect, status_response, LOGIN_DISCONNECT_JSON};
