# aqbot_core

The core of AQBot that keeps Codex sessions visible when the configured model
provider changes, keeps backups in S3, and migrates the `roles` table.

- `src/` is the library, verified with Verus: the rules for session files,
  the thread table of `state_5.sqlite`, Codex Desktop's workspace roots, the
  repair as a state machine, S3 object keys and error messages, and the
  `roles` schema with its repair. Its contracts are stated over mathematical
  models (`Seq`, `Map`-like sorted vectors, JSON values) and its laws are
  public proof functions beside the code they speak of.
- `app/` performs what the library decides: file-system access, SQLite
  through its C interface, the AWS SDK, and the sea-orm migrations.
- `tests/` exercises the library on concrete inputs.
