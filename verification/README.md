# simbad_resolver

Resolves names of deep-sky objects to canonical identities, cache first, with
Verus proofs of what the library does.

- `src/` is the library. It computes on values in memory: the tables of the
  identity store and of the queue of pending work, the requests to SIMBAD's TAP
  service and to Sesame with what is made of their answers, and the decisions in
  between. Every function has a contract; the modules whose names end in `laws`
  state what holds of several operations together.
- `tests/` runs the library.
- `app/` keeps the tables in a redb database, sends the requests with reqwest,
  parses and prints floating-point numbers, and offers the asynchronous traits.

The store is two ordered tables, targets and aliases. Its operations log every
change, and each contract says that replaying the log gives the new tables, so
that whoever keeps the tables elsewhere can apply the same changes there.

Resolving a query is a sequence of steps (`flow`), and so is draining the queue
in rounds (`batch`): the library says what to look up, ask for, store or claim
next, and goes on with what came of it. `app/` follows the steps over its
asynchronous store and resolver.

Floating-point numbers are bit patterns in the library. Reading an answer takes
two steps: the library says which texts are to be read as numbers, the caller
reads them, and the library goes on with the numbers.

What the proofs take for granted about other crates stands beside the calls, in
`identity`, `endpoint`, `tap`, `text`, `orchestrate` and `cache::tables`.
