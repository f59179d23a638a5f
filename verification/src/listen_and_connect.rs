//! Where the tool listens and where it connects: a TCP host and port, or the
//! path of a Unix-domain socket.
use vstd::prelude::*;

verus! {

/// A socket endpoint as the contracts see it.
pub enum SocketSpec {
    Tcp { host: Seq<char>, port: u16 },
    Unix { path: Seq<char> },
}

/// Where each stream that the peer opens is connected to.
#[derive(Clone, Debug, PartialEq, Eq)]
pub enum ConnectSetting {
    TcpConnectSetting { host: String, port: u16 },
    UnixConnectSetting { path: String },
}

impl View for ConnectSetting {
    type V = SocketSpec;

    open spec fn view(&self) -> SocketSpec {
        match self {
            ConnectSetting::TcpConnectSetting { host, port } => SocketSpec::Tcp {
                host: host@,
                port: *port,
            },
            ConnectSetting::UnixConnectSetting { path } => SocketSpec::Unix { path: path@ },
        }
    }
}

/// Where incoming connections are accepted; each one becomes a new stream.
#[derive(Clone, Debug, PartialEq, Eq)]
pub enum ListenSetting {
    TcpListenSetting { host: String, port: u16 },
    UnixListenSetting { path: String },
}

impl View for ListenSetting {
    type V = SocketSpec;

    open spec fn view(&self) -> SocketSpec {
        match self {
            ListenSetting::TcpListenSetting { host, port } => SocketSpec::Tcp {
                host: host@,
                port: *port,
            },
            ListenSetting::UnixListenSetting { path } => SocketSpec::Unix { path: path@ },
        }
    }
}

/// A UDP address: where datagrams are received, or where they are sent.
#[derive(Clone, Debug, PartialEq, Eq)]
pub struct UdpSetting {
    pub host: String,
    pub port: u16,
}

} // verus!
