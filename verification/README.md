# serde-kv

A flat key/value line format, `foo=bar baz=42 message="hello world"`, with
its grammar, quoting and token reading proved correct.

- `src/` is the verified library:
  - `de.rs`: the line grammar (`scan_*`, `spec_parse_line`), `parse_line`,
    the map access over decoded pairs, and the reading of one value token as
    a bool, a char or an integer;
  - `ser.rs`: quoting (`quote_if_needed`), the line writer (`Serializer`)
    and the tokens written for each kind of value;
  - `number.rs`: decimal integers, read and written;
  - `error.rs`: the error type and its messages;
  - `laws.rs`: what holds across reading and writing: a written line reads
    back as the pairs that were written, rewriting a read line reads back the
    same, quotes never change a value, integers and bools read back.
- `app/` connects the library to serde: `from_str`, `to_string`, and the
  `Serializer`/`Deserializer` impls, with floats left to std.
- `tests/` runs the library on concrete lines.
