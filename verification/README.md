# chronoscope_core

The core of a historical-facts platform, verified with Verus: uncertain dates and
their lattice, the algebra of claims and provenance, conflicts between facts, the
grammar of facts, and an in-memory fact store with snapshots and retractions.

## Layout

- `src/` is the library. Verus proves what its functions state.
  - `algebra/`: monoids, lattices, ordered sets, and the provenance semiring.
  - `calendar`, `date/`: days, precision periods, intervals, and `UncertainDate`,
    the bounded lattice of date claims.
  - `bits`, `claimed`, `annotation`, `evidence`, `location`, `text`, `nonempty`:
    values that facts carry.
  - `conflicts/`: which facts contradict each other, down to minimal fighting sets.
  - `entity`, `moment`, `consistency`: projected entities and the order of their
    lives.
  - `external_ids`: identifiers of outside catalogues and the addresses they are
    read from.
  - `facts/`: the grammar of facts, submissions, listings, and `facts/memory/`,
    the store.
- `tests/` runs the library on concrete values.
- `app/` is ordinary Rust around the library: wire formats, floating-point
  geometry, and the asynchronous faces of the store, of pages and of listings.

What the library takes from `chrono`, `sha2`, `hex`, `url`, `urlencoding` and
`oxilangtag` stands behind small functions marked `external_body`; the comment on
each says what is taken as given.

Public functions named `law_*` are proofs. They state what holds of the library
as a whole: the lattice laws, that canonical dates are unique, that conflict sets
are minimal and independent of order, that pages cover what they walk over, that a
snapshot never changes, that what lands is read back, that a commit is answered the
same ever after, and that a thing the matcher recognized is read as one class with
what it was recognized as.
