# roobu

Semantic image search for booru sites: posts are fetched from the site APIs,
their thumbnails embedded with SigLIP and stored in Qdrant; text, image and
hybrid queries search the stored vectors; a graph-based HDBSCAN groups them.

## Layout

- `src/` — the library, verified with Verus.
  - `sites/` — the site adapters' response handling (post records, tag
    synthesis, URL rewriting, preflight filters, retry policy, image checks).
  - `ingest/` — batching, checkpoint advance and cycle bookkeeping, the
    all-sites client plan.
  - `checkpoint.rs`, `strmap.rs`, `text.rs`, `error.rs` — the per-site
    checkpoint map, an ordered string map, string helpers, errors.
  - `store/` — point-ID encoding, site and activity tallies, date formatting,
    report ordering.
  - `search.rs`, `embed.rs` — query planning, model-loading and token framing
    decisions.
  - `cluster/` — union–find, pivot sampling, candidate gathering, connected
    components, the Kruskal dendrogram, cluster selection and labelling.
  - `web/` — API parameters and envelopes, the upload form, the ingest status,
    the websocket loop's decisions.
- `tests/` — tests of the library.
- `app/` — the `roobu` program: command line, HTTP, the ONNX models, Qdrant,
  the web server, and the floating-point parts (distances, scores, blending).
