use yamux_cli::args::{Args, ArgsError, Command};
use yamux_cli::listen_and_connect::{ConnectSetting, ListenSetting, UdpSetting};
use yamux_cli::port::PortError;

fn args(listen: bool, unixsock: bool, udp: bool, rest: &[&str]) -> Args {
    Args {
        listen,
        unixsock,
        udp,
        rest_args: rest.iter().map(|s| s.to_string()).collect(),
    }
}

#[test]
fn connect_tcp_host_and_port() {
    // yamux localhost 80
    assert_eq!(
        args(false, false, false, &["localhost", "80"]).command(),
        Ok(Command::Connect(ConnectSetting::TcpConnectSetting {
            host: "localhost".to_string(),
            port: 80
        }))
    );
}

#[test]
fn listen_tcp_port_only_binds_all_interfaces() {
    // yamux -l 8080
    assert_eq!(
        args(true, false, false, &["8080"]).command(),
        Ok(Command::Listen(ListenSetting::TcpListenSetting {
            host: "0.0.0.0".to_string(),
            port: 8080
        }))
    );
}

#[test]
fn listen_tcp_host_and_port() {
    assert_eq!(
        args(true, false, false, &["127.0.0.1", "2222"]).command(),
        Ok(Command::Listen(ListenSetting::TcpListenSetting {
            host: "127.0.0.1".to_string(),
            port: 2222
        }))
    );
}

#[test]
fn connect_unix_socket() {
    // yamux -U /unix/domain/socket/path
    assert_eq!(
        args(false, true, false, &["/unix/domain/socket/path"]).command(),
        Ok(Command::Connect(ConnectSetting::UnixConnectSetting {
            path: "/unix/domain/socket/path".to_string()
        }))
    );
}

#[test]
fn listen_unix_socket() {
    // yamux -U -l /unix/domain/socket/path
    assert_eq!(
        args(true, true, false, &["/unix/domain/socket/path"]).command(),
        Ok(Command::Listen(ListenSetting::UnixListenSetting {
            path: "/unix/domain/socket/path".to_string()
        }))
    );
}

fn udp(host: &str, port: u16) -> UdpSetting {
    UdpSetting { host: host.to_string(), port }
}

#[test]
fn udp_listen_port_only() {
    // yamux -ul 1053
    assert_eq!(
        args(true, false, true, &["1053"]).command(),
        Ok(Command::UdpListen(udp("0.0.0.0", 1053)))
    );
    assert_ne!(
        args(true, false, true, &["1054"]).command(),
        args(true, false, true, &["1053"]).command()
    );
}

#[test]
fn udp_listen_host_and_port() {
    assert_eq!(
        args(true, false, true, &["127.0.0.1", "1053"]).command(),
        Ok(Command::UdpListen(udp("127.0.0.1", 1053)))
    );
}

#[test]
fn udp_connect_host_and_port() {
    // yamux -u 1.1.1.1 53
    assert_eq!(
        args(false, false, true, &["1.1.1.1", "53"]).command(),
        Ok(Command::UdpConnect(udp("1.1.1.1", 53)))
    );
}

#[test]
fn udp_ignores_unix_flag() {
    assert_eq!(
        args(true, true, true, &["1053"]).command(),
        Ok(Command::UdpListen(udp("0.0.0.0", 1053)))
    );
    assert_eq!(
        args(false, true, true, &["h", "9"]).command(),
        Ok(Command::UdpConnect(udp("h", 9)))
    );
}

#[test]
fn udp_errors() {
    assert_eq!(args(true, false, true, &[]).command(), Err(ArgsError::PortNumberMissing));
    assert_eq!(args(false, false, true, &["53"]).command(), Err(ArgsError::HostAndPortMissing));
    assert_eq!(args(false, false, true, &[]).command(), Err(ArgsError::HostAndPortMissing));
    assert_eq!(
        args(true, false, true, &["dns"]).command(),
        Err(ArgsError::InvalidPort(PortError::InvalidDigit))
    );
    assert_eq!(
        args(false, false, true, &["1.1.1.1", "65536"]).command(),
        Err(ArgsError::InvalidPort(PortError::TooLarge))
    );
}

#[test]
fn unix_socket_path_missing() {
    assert_eq!(args(false, true, false, &[]).command(), Err(ArgsError::UnixSocketMissing));
    assert_eq!(args(true, true, false, &["a", "b"]).command(), Err(ArgsError::UnixSocketMissing));
    assert_eq!(ArgsError::UnixSocketMissing.message(), "Unix domain socket is missing");
}

#[test]
fn listen_port_missing() {
    assert_eq!(args(true, false, false, &[]).command(), Err(ArgsError::PortNumberMissing));
    assert_eq!(
        args(true, false, false, &["a", "1", "2"]).command(),
        Err(ArgsError::PortNumberMissing)
    );
    assert_eq!(ArgsError::PortNumberMissing.message(), "port number is missing");
}

#[test]
fn connect_host_and_port_missing() {
    assert_eq!(args(false, false, false, &["80"]).command(), Err(ArgsError::HostAndPortMissing));
    assert_eq!(args(false, false, false, &[]).command(), Err(ArgsError::HostAndPortMissing));
    assert_eq!(
        ArgsError::HostAndPortMissing.message(),
        "host and port number are missing"
    );
}

#[test]
fn invalid_port_is_reported() {
    assert_eq!(
        args(false, false, false, &["localhost", "http"]).command(),
        Err(ArgsError::InvalidPort(PortError::InvalidDigit))
    );
    assert_eq!(
        args(true, false, false, &["70000"]).command(),
        Err(ArgsError::InvalidPort(PortError::TooLarge))
    );
    assert_eq!(
        args(true, false, false, &["host", ""]).command(),
        Err(ArgsError::InvalidPort(PortError::Empty))
    );
    assert_eq!(
        ArgsError::InvalidPort(PortError::InvalidDigit).message(),
        "invalid digit found in string"
    );
}
