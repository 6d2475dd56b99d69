# unveil

Static analysis of obfuscated text and bytes, with every rule proved in
Verus: the detectors and their findings, the decoding adapters and their
validation, the worker protocol, the plan → preview → approve → apply
workbench, the wiki pack, the reports, and the module helpers' reports.

- `src/` — the verified library. Each public function states what it
  returns in its `ensures`; the `law_*` proof functions state the
  properties that hold across calls (round trips of the codecs and frames,
  the approval window, findings within their input, supported findings
  that their adapters can apply, folding and re-indenting that keep the
  text, reports without scripts, selections taken once, the worker's output
  read back exactly).
  The calls into other crates (SHA-256, gzip, JSON, UUIDs) sit in
  `src/outside.rs` and a few small wrappers, each with the contract the
  proofs rely on.
- `tests/` — tests on concrete values.
- `app/` — the command-line program: the isolated worker's input and
  output, the session database, files and helper processes. Analysis runs
  only in the sandbox, so on a machine without it the program refuses
  (fail-closed).
