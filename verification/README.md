# rusty_rtos_mqtt_core

The protocol core of an MQTT 5 client, written in Rust and proved with Verus.
It does no I/O of its own: a transport, a clock, a store and an event handler
are traits that the application implements.

## Layout

| Modules | What they hold |
|---|---|
| `wire`, `header`, `property`, `cursor`, `builder` | how numbers, texts, lengths and properties are spelled in bytes |
| `size`, `writer`, `connect`, `outbound`, `outpublish`, `disconnect` | what goes out: how long it is, and which bytes it is |
| `ack`, `connack`, `publish`, `validate`, `context`, `topic` | what comes in, and which of it is accepted |
| `state` | how far each publish has come, in both directions |
| `reader`, `client`, `session`, `loop_` | the client: sending, opening a session, resuming one, the receive loop |

## How to read the contracts

* A codec's contract says that its result equals a spec function over sequences
  of bytes, errors included.
* A record operation's contract says what the two record arrays are afterwards
  and which answer is given.
* What the client does with the outside world is a relation between two
  moments. A moment is the client's state, everything that has gone over the
  transport with its answers, and every reading of the clock. The loop adds
  what was asked of the store and what the application was told.
* Public proof functions named `law_..` state what holds across functions:
  that what is written is read back, that a size is the size that is written,
  that handshakes run to their end, that the loop keeps the invariant of the
  records.

`tests/` runs the library on concrete values.
`app/` holds three fixed workloads for counting instructions.
