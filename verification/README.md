# stream_patterns

Messaging patterns over many duplex streams at once, with machine-checked contracts.

| function  | what it does                                                        |
|-----------|---------------------------------------------------------------------|
| `push`    | sends each message to one of the streams, in turn                   |
| `publish` | sends each message to all streams                                   |
| `req`     | sends each request to one of the streams, in turn, and gets a reply |
| `rep`     | answers the requests that come from the streams                     |
| `sub`     | receives the messages of all streams                                |
| `pull`    | the same, for messages that were pushed                             |

Each function makes a machine. A machine is polled; it answers `Step::Again` when it got
somewhere and wants to be polled again at once, which `drive` does. Streams join by way
of a channel while it runs, and those that are gone are reported to another channel. A
message comes with a promise, which is kept when the message is through.

* `src/` is the library. `stream`, `channel`, `promise` and `merge` hold what the machines
  are made of, each with a record, for proofs, of what was asked of the outside.
  The `*_impl` modules are the machines, and the `*_laws` modules say what holds of them
  whatever the streams and channels answer. `fuzzer` has streams that are held up at random.
* `app/` offers the machines as `async` functions over `Stream + Sink`.
* `tests/` runs the library.
