# jingle

An agent-native credential keychain whose decision logic is verified with
Verus: secrets are stored, used and audited, and never printed.

## Layout

- `src/` — the verified library.
  - `model.rs`, `secrets.rs`, `vault.rs`: entries, the sorted secret-field
    map, the redaction boundary `EntryView`, case-insensitive lookup.
  - `crud.rs`: what `add`, `set`, `unset`, `generate`, `list`, `show`,
    `edit` and `lock`/`unlock` do to a vault, and the laws that relate them
    (unique handles, read-after-write, lock-then-refused).
  - `egress.rs`: `--secret REF=ENVVAR` parsing, the locked-entry gate,
    authorization with audit events, the `exec` plan, the child
    environment filter, the clipboard fingerprint, the burst tripwire.
  - `totp.rs`: HOTP/TOTP over HMAC-SHA-1, base32 and `otpauth://` seeds.
  - `genpass.rs`: rejection-sampled password generation.
  - `redact.rs`, `output.rs`, `audit_cmd.rs`: sanitizing, framing untrusted
    notes, the lines of `list`, `show` and `audit`, and the scrubbed views
    and audit records that `--json` output serializes.
  - `paths.rs`, `clock.rs`, `random.rs`, `text.rs`, `error.rs`: path
    resolution, time, OS randomness, strings, errors and exit codes.
- `tests/` — tests of the library through its public interface.
- `app/` — the unverified layer: printing (including the short success
  messages), JSON serialization, child processes, the
  clipboard, the environment and platform directories, the serialized
  vault payload. The vault store, the audit log and terminal prompts are
  reached through the traits in `app/lib.rs`.

Calls into `base32`, `hmac`/`sha1`, `sha2`, `getrandom`, `time` and `std`
that the logic needs are made from `src/` through small trusted wrappers,
each with a doc comment saying what its contract claims.
