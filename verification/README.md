# network_time_simulator

JADE, a deterministic network time simulator: intercepted applications (the
followers) run in network namespaces and ask a leader for the time, for
random numbers and for permission to send packets; the leader advances a
simulated clock from one scheduled event to the next.

## Layout

- `src/` — the library, verified with Verus:
  - `message.rs`: the messages and their fixed-size wire format, with the
    proof that reading a buffer back gives the message written into it;
  - `timestamp.rs`: the actions of one timespot (processes to wake up,
    packets to send);
  - `scheduler.rs`: what each message of a follower changes, when time
    must advance, which timespot comes next and whom to wake up;
  - `leader.rs`: the leader's loop as a state machine, from its state and a
    follower's message to its next state and the messages to send, with a
    model of its steps as values and laws over whole runs;
  - `topology.rs`, `addrmap.rs`, `gml.rs`, `addr.rs`: the network topology
    read from a GML graph, and the delays of its links;
  - `config.rs`, `cstr.rs`: the configuration read from a TOML text;
  - `bytes.rs`: native-endian byte representations.
- `app/` — the program around the library: message queues, processes,
  network namespaces and links, logging, and the functions called from C.
- `tests/` — tests of the library.
