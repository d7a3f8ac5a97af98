# myterm

An SSH workstation: stored connections, terminal sessions, SFTP, host
monitoring, HTTP CONNECT / SOCKS5 / ProxyJump transports, telnet, port
forwarding and a few tools around them.

- `src/` is the library, verified with Verus: the text handling, the reading
  of the monitor and hardware reports, password encryption, the proxy
  protocols, connection parameters and ProxyJump chains, directory listings,
  file-transfer bookkeeping, the chunked copy of a stream, the order in which
  a tree is copied, the session registries, telnet negotiation and the
  smaller decisions of each command.
- `app/` is the program around it: the SQLite database, the SSH and file
  I/O, reader threads, and a JSON bridge on standard input and output over
  which the window invokes commands and receives events.
- `tests/` runs the library on concrete inputs.
