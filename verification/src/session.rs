//! The state of one connection that commands can read and change: who is
//! connected, and what the client said about itself.

use crate::number::{decimal_digits, number_to_ascii};
use vstd::prelude::*;
use vstd::utf8::encode_utf8;

verus! {

/// The part of the description of a client that is the same for every
/// connection: the fields that lie between the remote address and the name
/// of the client library.
pub const INFO_FIXED_FIELDS: &'static str =
    " laddr=127.0.0.1:6379 fd=24 name= age=0 idle=0 flags=N db=0 sub=0 psub=0 ssub=0 multi=-1 watch=0 qbuf=26 qbuf-free=20448 argv-mem=10 multi-mem=0 rbs=16384 rbp=16384 obl=0 oll=0 omem=0 tot-mem=37786 events=r cmd=client|info user=default redir=-1 resp=2";

/// The address of the peer of a connection.
#[derive(Debug, Clone)]
pub struct RemoteAddress {
    /// The peer's IP address, as text.
    pub ip: String,
    pub port: u16,
}

/// The mathematical content of a [`RemoteAddress`].
pub struct RemoteAddressView {
    pub ip: Seq<char>,
    pub port: u16,
}

impl View for RemoteAddress {
    type V = RemoteAddressView;

    open spec fn view(&self) -> RemoteAddressView {
        RemoteAddressView { ip: self.ip@, port: self.port }
    }
}

/// What a connection knows of itself. A session belongs to one connection:
/// no command on another connection reads or changes it.
#[derive(Debug, Clone)]
pub struct Session {
    pub connection_id: usize,
    pub client_lib_name: String,
    pub client_lib_ver: String,
    pub remote_address: RemoteAddress,
}

/// The mathematical content of a [`Session`].
pub struct SessionView {
    pub connection_id: usize,
    pub client_lib_name: Seq<char>,
    pub client_lib_ver: Seq<char>,
    pub remote_address: RemoteAddressView,
}

impl View for Session {
    type V = SessionView;

    open spec fn view(&self) -> SessionView {
        SessionView {
            connection_id: self.connection_id,
            client_lib_name: self.client_lib_name@,
            client_lib_ver: self.client_lib_ver@,
            remote_address: self.remote_address@,
        }
    }
}

/// The line that describes a session: space-separated `key=value` fields,
/// ended by a line feed. It names the connection, the peer's address and the
/// client library; the fields between are fixed.
pub open spec fn info_line(session: SessionView) -> Seq<u8> {
    encode_utf8("id="@) + decimal_digits(session.connection_id as nat) + encode_utf8(" addr="@)
        + encode_utf8(session.remote_address.ip) + encode_utf8(":"@) + decimal_digits(
        session.remote_address.port as nat,
    ) + encode_utf8(INFO_FIXED_FIELDS@) + encode_utf8(" lib-name="@) + encode_utf8(
        session.client_lib_name,
    ) + encode_utf8(" lib-ver="@) + encode_utf8(session.client_lib_ver) + encode_utf8(
        " io-thread=0\n"@,
    )
}

impl Session {
    /// Writes the line that describes this session.
    pub fn info_line(&self) -> (line: Vec<u8>)
        ensures
            line@ == info_line(self@),
    {
        let mut line: Vec<u8> = Vec::new();
        line.extend_from_slice("id=".as_bytes());
        let mut id: Vec<u8> = number_to_ascii(self.connection_id);
        line.append(&mut id);
        line.extend_from_slice(" addr=".as_bytes());
        line.extend_from_slice(self.remote_address.ip.as_str().as_bytes());
        line.extend_from_slice(":".as_bytes());
        let mut port: Vec<u8> = number_to_ascii(self.remote_address.port as usize);
        line.append(&mut port);
        line.extend_from_slice(INFO_FIXED_FIELDS.as_bytes());
        line.extend_from_slice(" lib-name=".as_bytes());
        line.extend_from_slice(self.client_lib_name.as_str().as_bytes());
        line.extend_from_slice(" lib-ver=".as_bytes());
        line.extend_from_slice(self.client_lib_ver.as_str().as_bytes());
        line.extend_from_slice(" io-thread=0\n".as_bytes());
        assert(line@ =~= info_line(self@));
        line
    }
}

} // verus!
