# ssh_obi

A per-user terminal session keeper tunnelled over plain SSH: a remote daemon
owns a PTY and a shell, a short-lived broker connects the local client to it,
and the client reconnects after a lost connection.

- `src/` is the library, written in Verus. Its functions carry contracts
  that Verus proves, except a few small wrappers around std and chrono
  calls (UTF-8 decoding, `String::push`, the local time offset and time
  formatting), marked `external_body`, whose contracts are trusted. It
  holds the wire framing, the replay ring, session selection, the picker
  table and socket paths, the daemon's attach arbitration, the client's
  argument parsing, attached-session and reconnect decisions, the bootstrap
  script and command, foreground command lookup and the systemd scope
  command.
- `tests/` runs the library on concrete values.
- `app/` is ordinary Rust around the library: processes, PTYs, terminals,
  sockets, threads and the CBOR bodies of the messages.
