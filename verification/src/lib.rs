//! Verified core of a per-user terminal session keeper tunnelled over SSH:
//! the wire framing, the replay ring, session selection and socket paths,
//! the daemon's attach arbitration, client argument handling, the client's
//! attached-session and reconnect decisions, the remote bootstrap command,
//! foreground command lookup and the systemd scope command.

pub mod protocol;
pub mod daemon;
pub mod session;
pub mod systemd;
pub mod table;
pub mod text;
pub mod cli;
pub mod bootstrap;
pub mod client;
pub mod foreground;
pub mod transport;
pub mod server;
