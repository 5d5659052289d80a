# easytier

Decision logic of a mesh VPN node, written in Rust and verified with Verus.

`src/` is the verified library. It opens no socket, starts no process and reads no clock. Each
function takes what was read or received as plain values and says what is to be done; its contract
says so exactly.

| module | what it decides |
| --- | --- |
| `wireguard` | obfuscated wire format, packets through a tunnel, the wait for a handshake, the peers of a listener, where a connector binds |
| `connector` | which connections are tried again, and when |
| `peer` | which connection to a peer carries data, and which connections are let in |
| `route_exclude`, `peer_exclude` | host routes that keep the traffic to peers out of the tunnel |
| `proxy_cidrs` | which blocks of addresses go through the tunnel |
| `dns` | names that are resolved by an exit node |
| `firewall` | rules of the Windows firewall |
| `darwin` | interfaces and routes of macOS |
| `text`, `scan`, `digits`, `ip_text`, `url`, `net`, `clock`, `random`, `collections` | values that the others share |

What crosses the boundary to other crates stands in small functions marked
`#[verifier::external_body]`, each with a comment that says what is claimed of the call behind it.

`app/` holds the sockets, tasks, processes and system calls around the library. `tests/` runs the
library with the real crates behind it.
