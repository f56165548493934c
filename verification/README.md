# iiif_core

A IIIF Image API server engine (Image API 3.0 and 2.1, level 2 plus the
optional features) whose logic is verified with Verus: every public
function in `src/` carries a `requires`/`ensures` contract proved against
its body.

## Layout

- `src/` — the verified library.
  - `grammar` parses and prints the request grammar; `spelling` proves
    that printing and parsing are inverse on every well-formed value, and
    that the 2.1 surface reads into the same request type.
  - `eval` turns a request plus image dimensions and limits into a plan;
    `canonical` proves that a plan's canonical path asks for the same image.
  - `ident` decodes identifiers (no traversal segments, exact round trip);
    `source` holds the containment and range rules of the sources.
  - `image`, `pipeline`, `encode` and `codec` hold the raster transforms,
    the output encoders (behind trusted wrappers of the codec crates, and a
    verified PDF writer), and the pyramid/tile bookkeeping of the masters.
  - `route`, `metrics`, `health`, `info`, `v2` and `version` hold the HTTP
    decisions: routing, revalidation, status mapping, the metric registry,
    the info.json model; `reply` holds the responses the server gives on
    its own account (method rules, CORS, HEAD, the 503 with `Retry-After`)
    and the steps of an image request from admission to the encoded bytes.
  - `text` holds the character-sequence helpers and their lemmas.
- `tests/` — the test suite, run against the compiled library.
- `app/` — the server binary: sockets, the tokio runtime, hyper, file and
  object-store I/O, the TIFF and JPEG 2000 decoders, JSON serialization,
  and the floating-point pixel work (arbitrary rotation, Y′CbCr).

Trusted items (calls into outside crates and into `std` where `vstd` has
no specification) are marked `#[verifier::external_body]`; each says in its
doc comment what its contract claims and what it leaves unsaid.
