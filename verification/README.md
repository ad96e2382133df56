# Verified recipes for ZooKeeper

Leader election over ZooKeeper, with its decisions verified by
[Verus](https://github.com/verus-lang/verus).

- `src/` is the library. It does no I/O: it says what to ask of the service, takes
  the answers, and decides.
  - `recipes::leader` is the election among participants that have unique
    identifiers and are ranked by sequence numbers.
  - `recipes` itself (in `recipes::plain`) is the election among participants that
    are known by their nodes' names.
  - `recipes::ranking` says where a participant stands among those listed, and
    proves that one goes first, that each other one waits for exactly one node, and
    that the next in line takes over.
  - `recipes::exchange` holds what is asked of the service and what it answers, and
    `recipes::backoff` the delays between attempts.
  - `guid` and `text` read and write the names of nodes.
- `app/` runs the elections: it talks to the service, sends the states, and waits.
- `tests/` runs the library on examples.

A round of an election goes through the types `Checking`, `Announcing` and
`Watching`. Each is made only by the step before it, so a participant cannot
announce that it leads before its node was seen.

What is trusted of other crates stands in the functions marked `external_body`, in
`guid`, `recipes::backoff`, `recipes::exchange` and `recipes::plain::candidate`.
