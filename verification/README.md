# SafeCast

Keying and source authentication for protected media streams, verified with
[Verus](https://github.com/verus-lang/verus).

An MLS group agrees on one secret per epoch. SafeCast turns that secret into a
chain of short-lived SRTP keys, one per epoch, per video frame, per `n` packets
or per packet. A receiver follows the chain through loss, gaps and reordering
with a bounded window of keys. TESLA on top tells which member of the group sent
a packet.

## Layout

- `src/`: the library. Its functions have contracts that Verus proves; what is
  relied on of an outside crate is stated where the crate is called.
  - `keying/`: MLS members and groups, the key ratchet, rekeying granularities
  - `receiver.rs`, `receiver/`: the receiver's key window, generations, packet
    index recovery
  - `tesla.rs`, `tesla/`: key chain, MAC, schedule, signed commitment, sender and
    receiver
  - `simulation/`: a modeled video stream and a modeled network
  - `transport/`: RTP packets, the multicast destination
  - `directory.rs`, `client.rs`: the services' protocol and a demo client's
    decisions
  - `crypto.rs`, `messaging.rs`: the outside crates that the library calls, and
    what it relies on of each
- `tests/`: tests that run the library against the real outside crates
- `app/`: the programs around it: SRTP sessions of libsrtp, HTTP, multicast
  sockets, and the command line

Laws of the library as a whole are public proof functions whose names begin
with `law_`.

Encryption and decryption themselves are done by libsrtp. The library says which
key the session needs for a packet (`begin_unprotect`, `begin_arrival`,
`rekey_for`) and takes the session's verdict back (`finish_unprotect`,
`finish_arrival`).
