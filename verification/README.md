# edgefirst-client

The logic of the EdgeFirst Studio client, written in Verus with its
behaviour stated as contracts and proved.

- `src/` — the verified library:
  - `ids` — typed identifiers and their `prefix-hex` text form;
  - `api`, `dataset` — the records the Studio API exchanges;
  - `client` — server addresses, session tokens, RPC errors, download
    paths and file names;
  - `search` — ranking of name searches;
  - `coco` — COCO datasets: reading and filtering, RLE and LEB128 mask
    decoding, contour tracing, polygon handling, conversion to and from the
    rows of the EdgeFirst Arrow table, and the decisions of importing into
    and exporting from Studio;
  - `retry`, `multipart` — when requests and uploads are retried, and how
    large files are cut into upload parts.
- `tests/` — tests run against the compiled library.
- `app/` — the unverified surroundings: JSON (de)serialisation with serde,
  file system access, retry loops, environment settings, and
  floating-point geometry (box and mask scaling).

Outside crates are called from the library only through trusted items,
each with a doc comment that says what its contract claims.
