# passcrypto

A terminal password vault with a verified core.

* `src/` — the library, verified with Verus:
  * `padding`, `blocks`, `cipher`: PKCS#7 padding, 16-byte blocks, and
    AES-256 applied block by block under a key derived with SHA-256
    (the `aes` and `sha2` crates are called behind small trusted wrappers);
  * `vault`: the vault file — the marker `TRUE` followed by the serialised
    database, encrypted — and what opening it at start-up leads to;
  * `names`: entry titles (`.ps`), paths (`dir/name`) and their parts;
  * `db`: the database of folders and entries, with the checks and edits the
    browser makes;
  * `browse`: what the command line, the path line and the lists ask for;
  * `generator`: random passwords of letters and digits.
* `app/` — the terminal interface (cursive), file access, JSON (serde) and
  the clipboard.
* `tests/` — tests of the library on concrete values.
