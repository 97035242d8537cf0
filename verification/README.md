# prost-reflect (verified core)

Descriptor pools for protobuf reflection: adding `FileDescriptorProto`s to a
pool, checking them (names, imports, field and enum numbers, type references),
and querying the messages, enums, fields, extensions and services they define.

The library under `src/` is written in Verus. Its contracts state what each
operation returns over mathematical models of the pool (`DescriptorPoolInner`
and the views of the descriptor handles), and its proof functions state the
laws that tie operations together, for example that every name a successful
add defines is found by name afterwards, and that a failed add keeps the
pool's files, names, enums, services and extensions, and of each message
everything but its list of extensions: that list, with the extensions being
added appended, keeps only the indices below the number of messages, as the
rollback filters it.

Decoding and encoding a file descriptor set stay with prost: `app/` turns
bytes into the library's descriptor values and back, and `src/codec.rs`
frames the encoded files into a set and maps a failed decode to its error.

Layout:

- `src/types.rs`: the descriptor messages the pool is built from.
- `src/visit.rs`, `src/collect.rs`, `src/link.rs`: the passes that number,
  register and resolve the definitions of a batch of files.
- `src/api.rs`: `DescriptorPool` and adding files, with rollback on error.
- `src/descriptor.rs`: the descriptor handles and their queries.
- `src/error.rs`: errors, their messages, help texts and labels.
- `src/options.rs`, `src/derive.rs`, `src/builder.rs`: option values, the
  derive-attribute parser and the build-script configuration.
- `src/paths.rs`, `src/fits.rs`, `src/wf.rs`: laws and well-formedness.
- `src/codec.rs`: the framing of an encoded set, and pools from decoded sets.
- `app/`: conversions to and from `prost-types`, encoding and decoding, the
  global pool and `prost-build` integration.
- `tests/`: tests run against the compiled library.
