//! What the command line asks for.
use vstd::prelude::*;
use crate::listen_and_connect::{ConnectSetting, ListenSetting, SocketSpec, UdpSetting};
use crate::port::{parse_port, spec_parse_port, PortError};

verus! {

/// The command line: three flags and the remaining words.
pub struct Args {
    /// `-l`: listen instead of connecting.
    pub listen: bool,
    /// `-U`: use a Unix-domain socket.
    pub unixsock: bool,
    /// `-u`: UDP.
    pub udp: bool,
    /// The words after the flags: host and port, port alone, or a socket path.
    pub rest_args: Vec<String>,
}

/// What the tool is to do.
#[derive(Clone, Debug, PartialEq, Eq)]
pub enum Command {
    /// Receive UDP datagrams at an address and relay each peer's datagrams
    /// over a yamux stream of its own.
    UdpListen(UdpSetting),
    /// Send the datagrams carried by each yamux stream the peer opens to a
    /// UDP address, and carry the replies back.
    UdpConnect(UdpSetting),
    /// Accept connections and open a yamux stream for each.
    Listen(ListenSetting),
    /// Connect each yamux stream the peer opens to an endpoint.
    Connect(ConnectSetting),
}

/// `Command` as the contracts see it.
pub enum CommandSpec {
    UdpListen(Seq<char>, u16),
    UdpConnect(Seq<char>, u16),
    Listen(SocketSpec),
    Connect(SocketSpec),
}

impl View for Command {
    type V = CommandSpec;

    open spec fn view(&self) -> CommandSpec {
        match self {
            Command::UdpListen(u) => CommandSpec::UdpListen(u.host@, u.port),
            Command::UdpConnect(u) => CommandSpec::UdpConnect(u.host@, u.port),
            Command::Listen(l) => CommandSpec::Listen(l@),
            Command::Connect(c) => CommandSpec::Connect(c@),
        }
    }
}

/// Why the command line was refused.
#[derive(Debug, Clone, Copy, PartialEq, Eq, Structural)]
pub enum ArgsError {
    /// `-U` without exactly one path.
    UnixSocketMissing,
    /// `-l` without a port, or with more than two words.
    PortNumberMissing,
    /// Connecting needs exactly a host and a port.
    HostAndPortMissing,
    /// The port is not a number from 0 to 65535.
    InvalidPort(PortError),
}

impl ArgsError {
    /// The text reported to the user.
    pub fn message(&self) -> (m: &'static str)
        ensures
            m@ == self.spec_message(),
    {
        match self {
            ArgsError::UnixSocketMissing => "Unix domain socket is missing",
            ArgsError::PortNumberMissing => "port number is missing",
            ArgsError::HostAndPortMissing => "host and port number are missing",
            ArgsError::InvalidPort(e) => e.message(),
        }
    }

    pub open spec fn spec_message(&self) -> Seq<char> {
        match self {
            ArgsError::UnixSocketMissing => "Unix domain socket is missing"@,
            ArgsError::PortNumberMissing => "port number is missing"@,
            ArgsError::HostAndPortMissing => "host and port number are missing"@,
            ArgsError::InvalidPort(e) => e.spec_message(),
        }
    }
}

/// The host a TCP listener binds to when only a port is given.
pub open spec fn default_listen_host() -> Seq<char> {
    "0.0.0.0"@
}

/// `host` with the port that `port_text` names.
pub open spec fn host_port_spec(host: Seq<char>, port_text: Seq<char>) -> Result<
    (Seq<char>, u16),
    ArgsError,
> {
    match spec_parse_port(port_text) {
        Ok(port) => Ok((host, port)),
        Err(e) => Err(ArgsError::InvalidPort(e)),
    }
}

/// The address a listener binds to: host and port, or a port alone on
/// `default_listen_host()`.
pub open spec fn listen_address_spec(rest: Seq<Seq<char>>) -> Result<(Seq<char>, u16), ArgsError> {
    if rest.len() == 2 {
        host_port_spec(rest[0], rest[1])
    } else if rest.len() == 1 {
        host_port_spec(default_listen_host(), rest[0])
    } else {
        Err(ArgsError::PortNumberMissing)
    }
}

/// The address a connection goes to: exactly a host and a port.
pub open spec fn connect_address_spec(rest: Seq<Seq<char>>) -> Result<(Seq<char>, u16), ArgsError> {
    if rest.len() == 2 {
        host_port_spec(rest[0], rest[1])
    } else {
        Err(ArgsError::HostAndPortMissing)
    }
}

/// The pair a host-and-port result stands for.
pub open spec fn address_view(r: Result<(String, u16), ArgsError>) -> Result<(Seq<char>, u16), ArgsError> {
    match r {
        Ok((host, port)) => Ok((host@, port)),
        Err(e) => Err(e),
    }
}

/// The endpoint a Unix-socket command line names: exactly one path.
pub open spec fn unix_path_spec(rest: Seq<Seq<char>>) -> Result<SocketSpec, ArgsError> {
    if rest.len() == 1 {
        Ok(SocketSpec::Unix { path: rest[0] })
    } else {
        Err(ArgsError::UnixSocketMissing)
    }
}

/// What a command line with these flags and remaining words asks for. With
/// `-u` the words are read as for TCP (a Unix-domain socket carries no UDP
/// here, so `-U` has no effect on it).
pub open spec fn spec_command(listen: bool, unixsock: bool, udp: bool, rest: Seq<Seq<char>>) -> Result<
    CommandSpec,
    ArgsError,
> {
    if udp && listen {
        match listen_address_spec(rest) {
            Ok((host, port)) => Ok(CommandSpec::UdpListen(host, port)),
            Err(e) => Err(e),
        }
    } else if udp {
        match connect_address_spec(rest) {
            Ok((host, port)) => Ok(CommandSpec::UdpConnect(host, port)),
            Err(e) => Err(e),
        }
    } else if listen {
        let endpoint = if unixsock {
            unix_path_spec(rest)
        } else {
            match listen_address_spec(rest) {
                Ok((host, port)) => Ok(SocketSpec::Tcp { host, port }),
                Err(e) => Err(e),
            }
        };
        match endpoint {
            Ok(e) => Ok(CommandSpec::Listen(e)),
            Err(err) => Err(err),
        }
    } else {
        let endpoint = if unixsock {
            unix_path_spec(rest)
        } else {
            match connect_address_spec(rest) {
                Ok((host, port)) => Ok(SocketSpec::Tcp { host, port }),
                Err(e) => Err(e),
            }
        };
        match endpoint {
            Ok(e) => Ok(CommandSpec::Connect(e)),
            Err(err) => Err(err),
        }
    }
}

/// A command result as the contracts see it.
pub open spec fn command_result_view(r: Result<Command, ArgsError>) -> Result<CommandSpec, ArgsError> {
    match r {
        Ok(c) => Ok(c@),
        Err(e) => Err(e),
    }
}

impl Args {
    /// The remaining words, as character sequences.
    pub open spec fn rest_view(&self) -> Seq<Seq<char>> {
        self.rest_args@.map_values(|s: String| s@)
    }

    /// `host` with the port that `port_text` names.
    fn host_and_port(host: String, port_text: &String) -> (r: Result<(String, u16), ArgsError>)
        ensures
            address_view(r) == host_port_spec(host@, port_text@),
    {
        match parse_port(port_text.as_str()) {
            Ok(port) => Ok((host, port)),
            Err(e) => Err(ArgsError::InvalidPort(e)),
        }
    }

    /// The address to listen at: host and port, or a port alone.
    fn listen_address(&self) -> (r: Result<(String, u16), ArgsError>)
        ensures
            address_view(r) == listen_address_spec(self.rest_view()),
    {
        let rest = &self.rest_args;
        let ghost rv = self.rest_view();
        if rest.len() == 2 {
            let host = rest[0].clone();
            assert(host@ == rv[0] && rest[1]@ == rv[1]);
            Self::host_and_port(host, &rest[1])
        } else if rest.len() == 1 {
            let host = String::from_str("0.0.0.0");
            assert(rest[0]@ == rv[0]);
            Self::host_and_port(host, &rest[0])
        } else {
            Err(ArgsError::PortNumberMissing)
        }
    }

    /// The address to connect to: exactly a host and a port.
    fn connect_address(&self) -> (r: Result<(String, u16), ArgsError>)
        ensures
            address_view(r) == connect_address_spec(self.rest_view()),
    {
        let rest = &self.rest_args;
        let ghost rv = self.rest_view();
        if rest.len() == 2 {
            let host = rest[0].clone();
            assert(host@ == rv[0] && rest[1]@ == rv[1]);
            Self::host_and_port(host, &rest[1])
        } else {
            Err(ArgsError::HostAndPortMissing)
        }
    }

    /// The one path a Unix-socket command line names.
    fn unix_path(&self) -> (r: Result<String, ArgsError>)
        ensures
            match r {
                Ok(path) => unix_path_spec(self.rest_view()) == Ok::<SocketSpec, ArgsError>(
                    SocketSpec::Unix { path: path@ },
                ),
                Err(e) => unix_path_spec(self.rest_view()) == Err::<SocketSpec, ArgsError>(e),
            },
    {
        if self.rest_args.len() == 1 {
            let path = self.rest_args[0].clone();
            assert(path@ == self.rest_view()[0]);
            Ok(path)
        } else {
            Err(ArgsError::UnixSocketMissing)
        }
    }

    /// Decides what the command line asks for.
    ///
    /// Beside the exact result, the `ensures` say each form of the command
    /// line outright, word by word: how many words each form takes, which
    /// word is the host, the port or the path (as given), and the host a
    /// listener binds to when only a port is given.
    pub fn command(&self) -> (r: Result<Command, ArgsError>)
        ensures
            command_result_view(r) == spec_command(
                self.listen,
                self.unixsock,
                self.udp,
                self.rest_view(),
            ),
            // `yamux HOST PORT`
            !self.udp && !self.listen && !self.unixsock ==> if self.rest_args@.len() != 2 {
                r == Err::<Command, ArgsError>(ArgsError::HostAndPortMissing)
            } else {
                match spec_parse_port(self.rest_args@[1]@) {
                    Ok(p) => r matches Ok(
                        Command::Connect(ConnectSetting::TcpConnectSetting { host, port }),
                    ) && host@ == self.rest_args@[0]@ && port == p,
                    Err(e) => r == Err::<Command, ArgsError>(ArgsError::InvalidPort(e)),
                }
            },
            // `yamux -U PATH`
            !self.udp && !self.listen && self.unixsock ==> if self.rest_args@.len() != 1 {
                r == Err::<Command, ArgsError>(ArgsError::UnixSocketMissing)
            } else {
                r matches Ok(Command::Connect(ConnectSetting::UnixConnectSetting { path }))
                    && path@ == self.rest_args@[0]@
            },
            // `yamux -l [HOST] PORT`
            !self.udp && self.listen && !self.unixsock ==> if self.rest_args@.len() == 2 {
                match spec_parse_port(self.rest_args@[1]@) {
                    Ok(p) => r matches Ok(
                        Command::Listen(ListenSetting::TcpListenSetting { host, port }),
                    ) && host@ == self.rest_args@[0]@ && port == p,
                    Err(e) => r == Err::<Command, ArgsError>(ArgsError::InvalidPort(e)),
                }
            } else if self.rest_args@.len() == 1 {
                match spec_parse_port(self.rest_args@[0]@) {
                    Ok(p) => r matches Ok(
                        Command::Listen(ListenSetting::TcpListenSetting { host, port }),
                    ) && host@ == "0.0.0.0"@ && port == p,
                    Err(e) => r == Err::<Command, ArgsError>(ArgsError::InvalidPort(e)),
                }
            } else {
                r == Err::<Command, ArgsError>(ArgsError::PortNumberMissing)
            },
            // `yamux -U -l PATH`
            !self.udp && self.listen && self.unixsock ==> if self.rest_args@.len() != 1 {
                r == Err::<Command, ArgsError>(ArgsError::UnixSocketMissing)
            } else {
                r matches Ok(Command::Listen(ListenSetting::UnixListenSetting { path }))
                    && path@ == self.rest_args@[0]@
            },
            // `yamux -ul [HOST] PORT`
            self.udp && self.listen ==> if self.rest_args@.len() == 2 {
                match spec_parse_port(self.rest_args@[1]@) {
                    Ok(p) => r matches Ok(Command::UdpListen(u)) && u.host@ == self.rest_args@[0]@
                        && u.port == p,
                    Err(e) => r == Err::<Command, ArgsError>(ArgsError::InvalidPort(e)),
                }
            } else if self.rest_args@.len() == 1 {
                match spec_parse_port(self.rest_args@[0]@) {
                    Ok(p) => r matches Ok(Command::UdpListen(u)) && u.host@ == "0.0.0.0"@ && u.port
                        == p,
                    Err(e) => r == Err::<Command, ArgsError>(ArgsError::InvalidPort(e)),
                }
            } else {
                r == Err::<Command, ArgsError>(ArgsError::PortNumberMissing)
            },
            // `yamux -u HOST PORT`
            self.udp && !self.listen ==> if self.rest_args@.len() != 2 {
                r == Err::<Command, ArgsError>(ArgsError::HostAndPortMissing)
            } else {
                match spec_parse_port(self.rest_args@[1]@) {
                    Ok(p) => r matches Ok(Command::UdpConnect(u)) && u.host@ == self.rest_args@[0]@
                        && u.port == p,
                    Err(e) => r == Err::<Command, ArgsError>(ArgsError::InvalidPort(e)),
                }
            },
    {
        if self.udp && self.listen {
            match self.listen_address() {
                Ok((host, port)) => Ok(Command::UdpListen(UdpSetting { host, port })),
                Err(e) => Err(e),
            }
        } else if self.udp {
            match self.connect_address() {
                Ok((host, port)) => Ok(Command::UdpConnect(UdpSetting { host, port })),
                Err(e) => Err(e),
            }
        } else if self.listen {
            if self.unixsock {
                match self.unix_path() {
                    Ok(path) => Ok(Command::Listen(ListenSetting::UnixListenSetting { path })),
                    Err(e) => Err(e),
                }
            } else {
                match self.listen_address() {
                    Ok((host, port)) => Ok(
                        Command::Listen(ListenSetting::TcpListenSetting { host, port }),
                    ),
                    Err(e) => Err(e),
                }
            }
        } else {
            if self.unixsock {
                match self.unix_path() {
                    Ok(path) => Ok(Command::Connect(ConnectSetting::UnixConnectSetting { path })),
                    Err(e) => Err(e),
                }
            } else {
                match self.connect_address() {
                    Ok((host, port)) => Ok(
                        Command::Connect(ConnectSetting::TcpConnectSetting { host, port }),
                    ),
                    Err(e) => Err(e),
                }
            }
        }
    }
}

/// Connecting over TCP takes exactly two words: with any other number the
/// command line is refused for want of a host and a port; with two, the first
/// word is the host as given and the second the port.
pub proof fn lemma_connect_takes_host_and_port(rest: Seq<Seq<char>>)
    ensures
        rest.len() != 2 ==> spec_command(false, false, false, rest) == Err::<CommandSpec, ArgsError>(
            ArgsError::HostAndPortMissing,
        ),
        rest.len() == 2 ==> spec_command(false, false, false, rest) == match spec_parse_port(
            rest[1],
        ) {
            Ok(p) => Ok(CommandSpec::Connect(SocketSpec::Tcp { host: rest[0], port: p })),
            Err(e) => Err(ArgsError::InvalidPort(e)),
        },
{
}

/// A Unix-domain socket, for connecting or for listening, takes exactly one
/// word, the path as given, whatever its characters.
pub proof fn lemma_unix_socket_takes_one_path(listen: bool, rest: Seq<Seq<char>>)
    ensures
        rest.len() != 1 ==> spec_command(listen, true, false, rest) == Err::<CommandSpec, ArgsError>(
            ArgsError::UnixSocketMissing,
        ),
        rest.len() == 1 && listen ==> spec_command(listen, true, false, rest) == Ok::<
            CommandSpec,
            ArgsError,
        >(CommandSpec::Listen(SocketSpec::Unix { path: rest[0] })),
        rest.len() == 1 && !listen ==> spec_command(listen, true, false, rest) == Ok::<
            CommandSpec,
            ArgsError,
        >(CommandSpec::Connect(SocketSpec::Unix { path: rest[0] })),
{
}

/// A TCP listener given two words binds the first word, as given, at the
/// port the second names.
pub proof fn lemma_listen_host_is_first_word(host: Seq<char>, port_text: Seq<char>)
    ensures
        spec_command(true, false, false, seq![host, port_text]) == match spec_parse_port(port_text) {
            Ok(p) => Ok(CommandSpec::Listen(SocketSpec::Tcp { host, port: p })),
            Err(e) => Err(ArgsError::InvalidPort(e)),
        },
{
}

/// A listener given a port alone, for TCP or UDP, binds `0.0.0.0` whatever
/// the port: it behaves exactly as when `0.0.0.0` is given as the host.
pub proof fn lemma_port_alone_binds_all_interfaces(udp: bool, port_text: Seq<char>)
    ensures
        spec_command(true, false, udp, seq![port_text]) == spec_command(
            true,
            false,
            udp,
            seq!["0.0.0.0"@, port_text],
        ),
        !udp ==> spec_command(true, false, false, seq![port_text]) == match spec_parse_port(
            port_text,
        ) {
            Ok(p) => Ok(CommandSpec::Listen(SocketSpec::Tcp { host: "0.0.0.0"@, port: p })),
            Err(e) => Err(ArgsError::InvalidPort(e)),
        },
{
}

} // verus!
