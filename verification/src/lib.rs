//! The decisions of a command-line tool that multiplexes TCP, Unix-socket and
//! UDP traffic over one yamux session carried on stdin and stdout.
pub mod args;
pub mod listen_and_connect;
pub mod peer_table;
pub mod port;
pub mod udp_frame;
