# content_managment

A photo gallery's content manager and the rules of its print store, written
in Verus: each function of the library carries a contract on its result, and
Verus proves the code against it.

- `src/datamodel`: resources, their dependency records, print definitions and
  the store's API types.
- `src/manager`: dependency tracking, cleaning, outdated content, thumbnails,
  image metadata, categories, prints, templates, the Dropbox and clone
  synchronisation plans, and the command line's decisions.
- `src/server`: the store server's state, refreshing it from a gallery,
  answering print and info requests, validating carts and building the
  checkout request.
- `src/urlencode`: nested form values flattened to `a[b][c]=v` pairs and
  form-encoded.
- `src/strmap.rs`, `src/text.rs`, `src/digest.rs`, `src/clock.rs`: the
  string-keyed map, text helpers, SHA-256 digests and dates used throughout.
- `app/`: the programs around the library: files, network, the command line,
  image decoding, template rendering and the HTTP server.
- `tests/`: tests on concrete values.
