# ciborium

Deserialization of CBOR, verified with Verus.

- `src/` is the library. `de.rs` holds the deserializer over a byte slice, and
  `accept.rs` the decisions that it makes, one for each kind of value.
  `wire.rs`, `decoder.rs` and `state.rs` say what the bytes mean and what every
  read makes of them; the contracts are stated over these. `laws.rs`,
  `reads.rs`, `encode.rs` and `depth.rs` prove what holds between reads: that
  tags are skipped, that looking ahead changes nothing, that a read is decided by
  the bytes it takes and ends for want of them, that what is written is read
  back, and that an input is refused by the recursion limit exactly if it is
  nested deeper than that. `visit.rs` carries this over to whole values, whoever
  reads them.
- `app/` deserializes from any `ciborium_io::Read` through serde. It pulls the
  headers, asks `accept.rs` what they mean, and shows the answer to serde's
  visitors.
- `tests/` runs the library on concrete bytes.

What is believed without proof is marked `external_body`: the calls into
`ciborium-ll` (`decoder.rs`), `serde` (`header.rs`) and `core::str::from_utf8`
(`accept.rs`).
