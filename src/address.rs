//! Network endpoints as plain values, and the choice of transport by URL scheme.
use vstd::prelude::*;
use vstd::string::StringSliceAdditionalSpecFns;

use crate::rtsp::same_bytes;

verus! {

/// An IP address: IPv4 as a 32-bit number, IPv6 as a 128-bit number (both big-endian order).
#[derive(Clone, Copy, Debug, PartialEq, Eq, Structural)]
pub enum IpAddress {
    V4(u32),
    V6(u128),
}

/// An IP address and a port.
#[derive(Clone, Copy, Debug, PartialEq, Eq, Structural)]
pub struct SocketAddress {
    pub ip: IpAddress,
    pub port: u16,
}

/// Port used when a stream URL names none.
pub const DEFAULT_PORT: u16 = 1337;

/// `127.0.0.1`.
pub const LOCALHOST: u32 = 0x7f00_0001;

/// The host part of a stream URL.
#[derive(Clone, Debug, PartialEq, Eq)]
pub enum Host {
    /// The URL names no host.
    Missing,
    /// A name to look up.
    Domain(String),
    /// An address written out.
    Ip(IpAddress),
}

/// Where a stream URL leads: an address, or a name to look up first.
#[derive(Clone, Debug, PartialEq, Eq)]
pub enum Resolution {
    Address(SocketAddress),
    Lookup(String, u16),
}

/// The URL's port, else 1337.
pub open spec fn port_or_default(port: Option<u16>) -> u16 {
    match port {
        Some(p) => p,
        None => DEFAULT_PORT,
    }
}

/// Resolves the host and port of a stream URL: no host means the loopback
/// address, an IP address is taken as it is, and a name is left to DNS.
pub fn address_of(host: Host, port: Option<u16>) -> (r: Resolution)
    ensures
        match host {
            Host::Missing => r == Resolution::Address(SocketAddress { ip: IpAddress::V4(LOCALHOST), port: port_or_default(port) }),
            Host::Ip(ip) => r == Resolution::Address(SocketAddress { ip, port: port_or_default(port) }),
            Host::Domain(name) => r matches Resolution::Lookup(n, p) && n@ == name@ && p == port_or_default(port),
        },
{
    let port = match port {
        Some(p) => p,
        None => DEFAULT_PORT,
    };
    match host {
        Host::Missing => Resolution::Address(SocketAddress { ip: IpAddress::V4(LOCALHOST), port }),
        Host::Ip(ip) => Resolution::Address(SocketAddress { ip, port }),
        Host::Domain(name) => Resolution::Lookup(name, port),
    }
}

/// The wire protocol of a stream.
#[derive(Clone, Copy, Debug, PartialEq, Eq, Structural)]
pub enum Transport {
    /// Length-prefixed units over TCP.
    Tcp,
    /// FU-A fragments in RTP over UDP.
    Rtp,
    /// RTP negotiated over RTSP; for sending only.
    Rtsp,
}

/// Why a stream could not be started.
#[derive(Clone, Debug, PartialEq, Eq)]
pub enum StreamError {
    /// The URL scheme names no transport for this direction.
    UnsupportedProtocol(String),
}

proof fn lemma_schemes_differ()
    ensures
        "tcp".spec_bytes() != "rtp".spec_bytes(),
        "tcp".spec_bytes() != "rtsp".spec_bytes(),
        "rtp".spec_bytes() != "rtsp".spec_bytes(),
{
    reveal_strlit("tcp");
    reveal_strlit("rtp");
    reveal_strlit("rtsp");
    vstd::string::is_ascii_spec_bytes("tcp");
    vstd::string::is_ascii_spec_bytes("rtp");
    vstd::string::is_ascii_spec_bytes("rtsp");
    assert(vstd::string::is_ascii("tcp"));
    assert(vstd::string::is_ascii("rtp"));
    assert(vstd::string::is_ascii("rtsp"));
    assert("tcp".spec_bytes()[0] != "rtp".spec_bytes()[0]);
    assert("tcp".spec_bytes()[0] != "rtsp".spec_bytes()[0]);
    assert("rtp".spec_bytes().len() != "rtsp".spec_bytes().len());
}

/// The transport for sending a stream to a URL with this scheme: tcp, rtp or rtsp.
pub fn sender_transport(scheme: &str) -> (r: Result<Transport, StreamError>)
    ensures
        scheme.spec_bytes() == "tcp".spec_bytes() ==> r == Ok::<Transport, StreamError>(Transport::Tcp),
        scheme.spec_bytes() == "rtp".spec_bytes() ==> r == Ok::<Transport, StreamError>(Transport::Rtp),
        scheme.spec_bytes() == "rtsp".spec_bytes() ==> r == Ok::<Transport, StreamError>(Transport::Rtsp),
        scheme.spec_bytes() != "tcp".spec_bytes() && scheme.spec_bytes() != "rtp".spec_bytes()
            && scheme.spec_bytes() != "rtsp".spec_bytes() ==> (r matches Err(StreamError::UnsupportedProtocol(s)) && s@ == scheme@),
{
    proof {
        lemma_schemes_differ();
    }
    let b = scheme.as_bytes();
    if same_bytes(b, "tcp".as_bytes()) {
        Ok(Transport::Tcp)
    } else if same_bytes(b, "rtp".as_bytes()) {
        Ok(Transport::Rtp)
    } else if same_bytes(b, "rtsp".as_bytes()) {
        Ok(Transport::Rtsp)
    } else {
        Err(StreamError::UnsupportedProtocol(scheme.to_owned()))
    }
}

/// The transport for receiving a stream from a URL with this scheme: tcp or rtp.
pub fn receiver_transport(scheme: &str) -> (r: Result<Transport, StreamError>)
    ensures
        scheme.spec_bytes() == "tcp".spec_bytes() ==> r == Ok::<Transport, StreamError>(Transport::Tcp),
        scheme.spec_bytes() == "rtp".spec_bytes() ==> r == Ok::<Transport, StreamError>(Transport::Rtp),
        scheme.spec_bytes() != "tcp".spec_bytes() && scheme.spec_bytes() != "rtp".spec_bytes()
            ==> (r matches Err(StreamError::UnsupportedProtocol(s)) && s@ == scheme@),
{
    proof {
        lemma_schemes_differ();
    }
    let b = scheme.as_bytes();
    if same_bytes(b, "tcp".as_bytes()) {
        Ok(Transport::Tcp)
    } else if same_bytes(b, "rtp".as_bytes()) {
        Ok(Transport::Rtp)
    } else {
        Err(StreamError::UnsupportedProtocol(scheme.to_owned()))
    }
}

/// The decoder a viewer builds.
#[derive(Clone, Copy, Debug, PartialEq, Eq, Hash, Structural)]
pub enum DecoderId {
    Ffmpeg,
}

} // verus!
