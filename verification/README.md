# rsrrcd

A hub for RRC, a chat protocol over Reticulum links: rooms, direct notices, room and hub operators,
large texts as resources, and a registry of rooms that outlasts the daemon. The hub itself is a
verified library; what it does with every packet, resource and event is stated and proved with
Verus.

## Layout

- `src/` is the library.
  - `router/` is the hub. Each file states what the hub does upon one kind of event as a function
    from a `Hub` to a `Turn`, and holds the code that is proved to do just that. A `Router` is
    driven with link ids and hands back the `Action`s to be carried out.
  - `state.rs` holds sessions, rooms and the indexes between them; `protocol.rs` and `cbor.rs` hold
    envelopes; `outgoing.rs` turns what is to be said into packets; `config.rs` and `registry.rs`
    hold what is in the files; `collections.rs`, `text.rs` and `clock.rs` are what all of them
    build on.
  - `laws/` states and proves what holds of the hub as a whole.
- `app/` is the daemon around it: the command line, files, logging, and the loop between the network
  and the hub.
- `tests/` drives the library from outside.

## Work on files

The library does no I/O. Where the hub has to save its rooms or its bans, or to read its files
again, it hands back a `Pending` with a `Step`. The daemon does the work and calls
`Router::resume` with what came of it.

## Times

Spans and points of time are whole nanoseconds. A file has them in seconds; the daemon converts.
