# vtz

The verified core of the `vtz` runtime's package manager, its framework
plugin layer and its native list handler, written in Verus.

## Layout

- `src/` — the library, every function verified against its contract.
  - `text.rs`, `json.rs`, `json_value.rs`, `smap.rs`: strings, JSON text,
    JSON values and key-ordered maps and sets, with their mathematical views.
  - `native_handler/`: JWT signing and checking, access rules, SQL
    building and the JSON envelope of list responses.
  - `plugin/`: the framework plugin interface, HMR decisions, and the
    React and Vertz plugins.
  - `pm/`: the package manager: registry configuration and `.npmrc`,
    registry retries and ETag replies, publishing, overrides, patches,
    lockfile listings (`list`, `why`), audits and fixes, linking plans,
    tarball integrity and entry checks, lifecycle scripts, and the
    commands' decisions and messages.
- `tests/` — tests run against the compiled library.
- `app/` — the command-line program: files, environment and processes,
  calling the library for every decision.

Calls into outside crates (serde_json, node-semver, sha2, base64, ring,
similar, glob, url) go through small trusted wrappers whose contracts state
what those crates document.
