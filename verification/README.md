# tola

The core of a static site generator for Typst, written in Verus: the
decisions and transformations that turn compiled pages into a site, with
their behaviour stated in `requires` / `ensures` contracts and proved.

## Layout

- `src/` — the verified library.
  - `config.rs`, `error.rs` — site configuration and the library's errors.
  - `pipeline/` — the page cache, URL normalization and diff outcomes,
    classification of changed files into a rebuild plan.
  - `vdom/` — the virtual DOM of a page: nodes and queries, content-derived
    node identities, indexing, the processing fold and transforms.
  - `typst_lib/` — file caching with fingerprint-based invalidation,
    accessed-file tracking, diagnostics and source snippets.
  - `utils/` — HTML processing over quick-xml events (links, headings,
    images, head content), SVG capture, slugs, page metadata and dates,
    RSS items, minification, hashing, paths, git tree order, and more.
  - `serve.rs`, `watch.rs` — request routing and directory listings for the
    development server; debouncing and change filtering for the watcher.
- `tests/` — tests of the library, run against the real outside crates.
- `app/` — the program around the library: command line, file and network
  I/O, the development server loop, and the SVG geometry that works on
  floating-point numbers.

Outside crates (quick-xml, minify-html, regex, blake3, deunicode,
urlencoding) are called from `src/` through small trusted wrappers whose
contracts state what those crates document.
