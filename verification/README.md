# pwm

A password manager whose core is verified with Verus: every entry of a vault
is sealed with AES-256-GCM under an Argon2id key derived from the master
password and a fresh salt, and the master password itself is checked against
a peppered PBKDF2-HMAC-SHA512 hash.

## Layout

- `src/` — the verified library.
  - `db_base` — the ordered name-to-value database, modelled as a `Map`.
  - `codec` — the byte layout a database is stored in, with its round trip.
  - `db_encrypted` — the vault: sealed entries, the master password check,
    loading and saving, and CSV import and export, with the laws that a
    read gives back a write, that a saved vault loads back, and that an
    export imports back.
  - `hash`, `cipher`, `encryption`, `aes_wrapper` — key derivation and
    sealing, each call into a cryptography crate behind a small trusted
    wrapper whose contract names its result.
  - `csv_format` — the CSV reader and writer.
  - `parser`, `cli` — the command line: splitting a line into words, the
    command it asks for, and the replies.
  - `gui` — the logic behind the window: recent vaults, the open vault and
    its unsaved-changes flag, paths, errors and messages.
  - `crypt_file`, `standalone`, `salt`, `random` — sealing single files,
    raw-key helpers and password generation.
- `tests/` — tests of the library on concrete values.
- `app/` — the command-line program: arguments, terminal, files and the
  clipboard.
