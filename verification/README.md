# p2p

A peer-to-peer blockchain node, with its protocol logic verified by Verus.

- `src/` is the verified library:
  - `hosts` — the known peers, each `(ip, port)` at most once, in the order first seen;
  - `decimal` — port numbers as decimal text, parsed as `u16::from_str` parses them;
  - `peer_to_peer` — the plain-text network: the `"<port>:<line>"` announcement,
    its parser, and what a node does with a received announcement or a typed line;
  - `node` — the blockchain protocol's messages, the pool of pending transactions,
    what a node answers to each message and what else it must do, the prompt's commands
    (`whoami`, `send`, `mine`, `mempool`, `chain`, `inventory`, `ping`, `quit`), and what
    `send` and `mine` put into the pool and broadcast;
  - `split` — cutting a text at its first separator, as `str::split_once` does;
  - `client` — a client bound to a peer port.
- `app/` is the program around it: sockets, threads, locks, JSON (de)serialisation
  and the calls into the blockchain crate.
- `tests/` runs the library on concrete values.
