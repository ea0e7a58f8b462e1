# dione

The decision core of a Discord bridge for language-model constructs, written in
Verus. What the bridge decides is proved here; what it reads, posts and waits for
is ordinary Rust around it.

## Layout

- `src/` is the library. Every executable function has a contract over
  mathematical models, and Verus proves it.
  - `no_rly/` holds outbound messages that need consent: the judge, the queue of
    single-use handles, the consent gate and its audit journal.
  - `pre_send` runs hooks over a message before it is posted.
  - `oneshot` decides whether and how one message is posted from the command line.
  - `mute_store` replays and extends the receipt log of guild mutes.
  - `pluralkit`, `pronoundb`, `nameplates` and `permissions` resolve identities,
    pronouns, names and requests for permission.
  - `principal_policy` and `gate` say who is let in and where messages may go.
  - `mcp/` holds the tools and the queue of notifications.
  - `text`, `json`, `clock`, `table` and `contradictionary` are what the rest is
    built on.
- `tests/` runs the library on concrete values.
- `app/` is the program around the library: files, HTTP, locks, timers and the
  types that carry serde's and clap's derives.

## What is trusted

Calls into other crates stand behind small functions marked `external_body`, each
with a contract that says what is claimed of the call: `chrono` for the clock and
for dates, `uuid` for identifiers, `serenity` for timestamps and `mitex` for
the formulas that it is known to convert without failing. From the standard library,
`String::push`, the `Debug` text of a string and the randomness of `RandomState` are trusted in the same way.

Public functions named `law_…` state what holds across several functions.
