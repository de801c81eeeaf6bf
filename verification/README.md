# irc

Parsing and creating IRC messages, with the behaviour of each function
stated in its contract and proved with Verus.

## Layout

- `src/` is the verified library.
  - `parse/`: the message parsers (an owned one, one that reads in place,
    and two older sliced ones), their shared model, and the composition of
    message lines with the proof that what is written reads back.
  - `message_types/`, `mtype2/`, `legacy/`: typed client and server
    messages built on the parsers.
  - `irccase.rs`, `identifier.rs`: IRC case mapping and checked channel
    and nick names.
  - `state.rs`: the tracker of users and channels, with the changes
    between two states and the proof that applying them gives the second.
  - `watchers/`, `connection.rs`, `core_plugins/`: the decisions of a
    connection (bundling of replies, answers to `PING` and CTCP `VERSION`),
    free of I/O.
  - `cap/`: IRCv3 capabilities, stored by name without case.
  - `recv.rs`, `message_group.rs`, `stream.rs`, `testinfra/`: buffers of
    lines, groups of messages, registration steps and recorded sessions.
- `tests/`: the tests, run against the compiled library.
- `app/`: the I/O around the library: threads and sockets, readers and
  writers of lines, and the fuzzing harness.
