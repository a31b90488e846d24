# tinysocks

A single-port SOCKS5 and HTTP proxy. The library under `src/` holds the
protocol logic, each function with a contract proved by Verus:

- `protocol`: SOCKS5 addresses, requests, replies and UDP datagram headers,
  with the method negotiation and request reading as decisions over the
  bytes received so far.
- `auth`: HTTP Basic credentials, the SOCKS5 username/password exchange and
  the allowlist of networks that skip authentication.
- `http`: reading a request head, body-framing checks, the statistics page
  request, target splitting, routing and the request head sent upstream.
- `handler`: the state of a UDP association (client lock, known targets).
- `config`, `server`, `stats`, `service`, `cli`, `io_timeout`, `net`,
  `text`: settings, per-connection decisions, counters and the stats page,
  service files and command lines, and the text and address helpers.

`app/` is the program around it: command-line parsing, sockets, timeouts,
relaying and service installation.
