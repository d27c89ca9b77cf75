# restreamer

State of an application which re-streams live streams: a `State` holds
`Restream`s, each of which receives a live stream from its `Input` and sends it
to its `Output`s, optionally mixed with `Mixin`s. A shareable `Spec` of a
`State` may be applied to it (either replacing what is there, or being merged
into it), and exported from it.

The library is written in [Verus](https://github.com/verus-lang/verus): what its
functions do is stated by their contracts, and is proved. What is believed
without a proof is listed below. Derived implementations carry no contracts.

- `src/names.rs`, `src/addresses.rs`, `src/ids.rs`, `src/measures.rs`,
  `src/srs.rs`: values that the state consists of;
- `src/lists.rs`: how lists of identified items are replaced and merged;
- `src/spec.rs`, `src/spec/v1.rs`: shareable specifications, and the uniqueness
  that is required of them;
- `src/state.rs`, `src/state/`: the state and operations on it, along with local
  endpoints that live streams are received on;
- `src/laws.rs`, `src/laws/`: what holds of these operations altogether;
- `tests/`: the library on concrete values;
- `app/`: serialization, GraphQL types and a reactive persisted state around the
  library.

Random identifiers make operations which create items non-deterministic. So
their contracts tell what state is expected, with `Id::Fresh` standing for an
identifier which is newly drawn, and that the actual state `realizes` it.

URLs are parsed by the `url` crate, and UUIDs are drawn, displayed and parsed by
the `uuid` crate. What is relied on of them is stated by the contracts of
`parse_url`, `random_uuid`, `uuid_text` and `parse_uuid`, which are believed. So
are the ones of `String::push`, and of `From::from` of a value to its own type,
of the standard library.
