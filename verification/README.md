# lanpaste

A LAN clipboard: what is copied on one computer becomes available on the
paired computers on the same network, with a searchable history on each.

`src/` is the core, verified with Verus: what a copy becomes (clipboard
formats, HTML/RTF clean-up, titles, previews), the content hash that
de-duplicates entries, the history clean-up policy, the settings store
format, pairing tokens and signed requests, the sync protocol's decisions
(what is sent, queued, retried, dropped or refused), ranged file downloads,
and the device lists. Outside crates (SHA-256, hex, base64, Ed25519, image
decoding, percent-encoding, randomness) are called through small wrappers
whose contracts state what those crates do.

`app/` is the runtime around it: the SQLite store and blob directory, the
identity files, the HTTPS server and client, mDNS discovery and the loops
that watch the clipboard, sync and clean up.

`tests/` runs the library on concrete values.
