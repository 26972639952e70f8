# zork

The logic of a chat agent, with contracts that Verus proves: the log of a session and how a session
is rebuilt from it, the tools that a model may call, the HTTP interface and its event streams, the
statuses and messages that a chat shows, the profiles of model providers, and the command line that
a session's programs use.

## Layout

- `src/` is the library. Each module states what its functions return in `ensures`, over models of
  the data (`Seq<char>` for text, `JsonModel` for JSON, `EnvelopeModel` for the events of a log).
  Public proof functions state what holds of several functions together.
- `tests/` runs the library on concrete values, with the crates that it calls linked in.
- `app/` is the ordinary Rust around the library: arguments, files, processes, sockets and HTTP. It
  reads and sends, and leaves every decision to the library.

## What is not proved

The library calls `serde_json`, `jsonschema`, `sha2`, `ulid`, `chrono` and `reqwest::Url` through
small functions marked `external_body`, each with a comment that says what is taken for granted.
Scores of profiles and times in seconds are floating-point numbers; they are read in `app/`, which
hands the library integers in the same order.
