# blobfind

A census of native binaries, shared libraries and high-entropy blobs inside
dependency trees, with provenance hints. Fully offline.

## Layout

- `src/` — the library, verified with Verus. Every rule the tool applies
  lives here with its contract:
  - `sniff` — format detection from a file's first 512 bytes;
  - `inventory` — classification, hints, findings and the scan state;
  - `provenance` — which package shipped a file, from on-disk layout and
    manifests (the directory facts are read by the caller);
  - `baseline` — the lock file, its parser and the drift between two lists;
  - `report`, `json` — the human and machine-readable output;
  - `walk` — the directory walk as a state machine;
  - `cli` — the command line;
  - `sha256`, `entropy` — the digest and byte counting;
  - `text`, `paths`, `order`, `util` — characters, `Path` components,
    lexicographic order, sizes.
- `app/` — the program: file-system access, floating-point entropy and
  thresholds, and printing, around the library.
- `tests/` — tests of the library on concrete values.
