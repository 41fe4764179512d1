# buffa

Parts of a protobuf runtime, with their behaviour stated in contracts and
proved:

- `json_helpers::wkt`: the proto3 JSON forms of the well-known types
  `Timestamp` (RFC 3339), `Duration` (`"1.5s"`) and `FieldMask` (camelCase
  paths), and the proleptic Gregorian calendar they rest on. Formatting and
  parsing are stated over the characters of the text, and the round trips
  are proved, as is that a field-mask path with an uppercase letter, or an
  `_` not followed by a lowercase letter, does not survive the camelCase
  round trip.
- `table`: the tables that drive the table codec. An `Entry` per field (its
  wire tag, offset and `Kind`), the descriptors that entries index (`Aux`:
  message, enum, oneof, member and map descriptors), `Table::try_new`, which
  names the first check an inconsistent table fails, and `Table::new`, which
  accepts only a consistent table. The lookups
  of an accepted table (`MessageTable::find`, `payload_entry`) are proved
  to find the entry with a number, whether through the dense array or by
  binary search, and every oneof of an accepted table has exactly one
  leading member. `OneofVt` reads and replaces the member of a oneof.
- `table::wire`: the wire format per field: varints, the scalar encodings,
  the layout of each cardinality (implicit, required, optional, repeated,
  packed), the writers and sizers of scalar and enum fields, and varint
  decoding, with the varint round trip proved.
- `table::write`: the write pass over a message held as plain values
  (`FieldData`, one per entry): `Table::write_to` writes each field in entry
  order and then the unknown fields, and `Table::compute_size` counts the
  same bytes without writing them. `Table::write_to_bytes_mut` and
  `Table::write_to_rope` append the same bytes to a `BytesMut` and to a
  `Rope`.
- `table::decode`: decoding a message into plain values
  (`merge_message`, `Table::merge_to_limit`, `Table::merge_length_delimited`,
  `Table::merge_field`): the tag dispatch through the table, unknown fields
  kept or skipped, oneof members held at their oneof's leading entry, map
  entries inserted by key, and the size and nesting limits. A message value with a table of
  its own is decoded through it, a nesting level down. Decoding what
  `Table::write_to` writes is proved to give the fields back, for messages
  whose fields are scalars and enums (singular, packed or repeated),
  strings, bytes, message values, maps and oneofs, followed by unknown
  fields that the table does not number. A field that fails to decode
  changes nothing, and the fields before it stay read.
- `table::gather`: decoding from a buffer of segments (`RopeBuf`):
  `Table::merge_buf_to_limit` reads the same fields as from the bytes laid
  end to end, in place where they lie in one segment and gathered where
  they span several, and `Table::merge_buf_field` reads one field only
  where everything left lies in one segment.
- `table::read`: the decode arm of one field (`merge_kind`): a scalar,
  enum, string, bytes or message value read off the wire into what the
  field holds, packed or not, with a closed enum's unknown numbers sent to
  the unknown fields. A singular scalar field the writer lays out is proved
  to read back as the number it held.
- `table::map_entry`: reading one map entry off the wire (`merge_entry`):
  tags, the values of each wire type, skipping unknown fields and groups
  within a nesting budget, UTF-8 for string keys, the last key and value
  winning and message values joined. Reading back what the writer lays out
  is proved to give the entry's key and value.
- `encode_sink`: `PreSized`, a cursor over a buffer of known size, and
  `Rope`, which keeps large shared payloads as segments and copies small
  writes into a tail; its segments always concatenate to the bytes written.
- `packaging`: the decisions of the packaging plugin: the options of its
  parameter (`parse_options`), which packages the module tree covers
  (`select_packages`, given what each requested file's descriptor says), and
  where an item goes after a file's header comments and inner attributes.

`app/` holds what stands around the library: the JSON buffering that rests on
`serde`'s traits, and the error types with `Display` and `std::error::Error`.
