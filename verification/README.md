# uv_wasm

The parts of uv that run in a browser, where there is no disk, no process, no terminal and
no network stack of its own: an in-memory filesystem with `std::fs`-shaped operations, file
handles with advisory locks, temporary files and directories, directory walks and glob
patterns, `file:` URLs, the process environment, HTTP `HEAD` requests sent as ranged `GET`s,
prompts answered by policy, and terminal output captured by the embedding application.

`src/` is the library, written in Verus: every function carries a contract over a
mathematical model of its data (the filesystem is a map from normalised paths to entries,
a walk is a sequence of steps, a header list is a sequence of pairs), and the laws that
relate the operations (what a read gives back of a write, what a rename moves, what a lock
excludes) are stated and proved as proof functions. Calls into outside crates (`url`,
`percent-encoding`, `glob`, `anstream`, `owo-colors`, `rustc-hash`, `web-time`) go through
small trusted wrappers whose contracts are documented beside them.

`app/` is ordinary Rust around the library: the per-thread state the browser keeps, the
`std`-shaped entry points over it, async plumbing (sleeping, timeouts, task spawning, lock
waiting, build hooks, transports), child-process stubs, and the impls of outside traits
(`std::io::Write`, `indicatif::TermLike`, `Display`).

`tests/` exercises the library on concrete values.
