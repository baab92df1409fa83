# medius

Host-side control library for the medius mouse-passthrough box, with its decisions proved in
Verus.

- `src/` is the verified library. Each public function states what it returns or changes in
  `requires`/`ensures` over mathematical models (`Seq`, `Map`, `Multiset`, spec functions); the
  laws that relate several functions are public proof functions (`lemma_*`). Calls into other
  crates (`sha2`, `hdrhistogram`) and a few `std` functions sit behind small trusted items whose
  contracts say what their documentation or source shows.
- `src/mock.rs` and `src/mock_update.rs` hold the fake box used for hardware-free tests: the
  firmware's lock, rewrite and transform tables, the clip engine's packet triggers, the session
  they belong to (its release, teardown and the imperfect-clone option) and the firmware-update
  session, each frame's effect stated over the state's view.
- `app/` is the part that touches the operating system: running `esptool`, the precise tick clock,
  the pacer, keepalive and reconnect loops, reply channels, configuration files, and the
  floating-point histogram summaries.
- `tests/` runs the library on concrete values.

Not part of this crate: the `Device` and async APIs over a serial transport, the reader thread,
the frame codec and command payload encoders, the command-line tool, and the parts of the fake box
that rest on them: its frame dispatcher, its reply payloads, its default identity, the descriptor
patch store and the options other than the imperfect-clone opt-in. The wire constants in `src/opcode.rs` are this
crate's own.
