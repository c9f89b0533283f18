# xskip

A userspace networking stack over AF_XDP, with its decisions verified by Verus.

Packets bypass the kernel stack by XDP, land in a UMEM region shared with the
driver, and are reassembled (TCP, on smoltcp) or unwrapped (UDP) in userspace.
A consumer polls raw payloads out with `recv` and puts them in with `send`;
nothing blocks, and the consumer owns the loop.

## Layout

- `src/` is the library. It holds no system call and no shared memory: it is
  handed counters, slots and bytes, and says what to do with them.
  - `ring`, `frame`, `xsk`: who owns which UMEM frame, and what goes into which
    slot of the four rings.
  - `wire`, `udp`: Ethernet, IPv4 and UDP framing, byte by byte.
  - `tcp`: the queues and the state of a TCP connection.
  - `socket`: the socket, shaped like a UNIX socket, over either transport.
  - `irc`, `net`, `ui`, `queue`: a chat client on top.
  - `pipe`, `bench`: the decisions of the two programs.
  - `addr`, `text`: addresses, numbers and text.
- `tests/` runs the library, TCP over a wire in memory.
- `app/` is the rest: system calls, the XDP program and its maps, the terminal.

Frames `[0, 2048)` back the receive path and `[2048, 4096)` are the transmit
pool, so that receiving and sending never contend for a frame. That, the
round trip of a datagram, and that the chat client handles a stream the same
way however it is cut, are among the laws proved in `src/`.
