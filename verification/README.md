# lager

A warehouse for git checkouts: a configuration declares repositories (one by one, or by
wildcard patterns that a hosting provider expands), and `lager` clones each declared
repository to its configured place below one root, lists what is declared and what is on
disk, runs post-clone hooks, and removes checkouts safely.

The library under `src/` is written in Verus and proved. Its contracts state what each
operation returns or changes over mathematical models (`Seq`, `Map`, views of the data
types), and its laws state what holds across operations:

- `domain/`: references, configuration and the local state of a checkout;
- `application/`: registering and removing declarations, building the inventory,
  listing, the picker's candidates, cloning, reconciliation (`ensure_declarations`),
  hooks and safe removal (`delete_below_root` is the one place a checkout is deleted);
- `keys`, `picker`, `presentation`, `terminal`, `text`, `order`, `paths`: the
  interactive inventory screen's logic, ordering and text helpers;
- `address`: the calls into the `url` crate, each behind a trusted wrapper whose
  contract says what the crate's documentation promises.

The ports (`application/ports.rs`) are traits for what the library cannot do itself:
the configuration file, git, the hosting providers, the filesystem and the terminal.
`app/` implements them and holds the command line, the file and network I/O and the
terminal drawing. `tests/` runs the library with the real outside crates linked.
