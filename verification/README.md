# kooforge

A search for Ed25519 peer identifiers (as used by IPFS and libp2p) that hold a pattern.

`src/` is the library, verified with Verus: patterns and their checks, matching, Base58,
keys and identifiers, the files that are written for a hit, and the reports. `src/laws.rs`
holds the properties that span several modules. `app/` is the program around it: the command
line, the dialogue, the threads and the files. `tests/` runs the library.
