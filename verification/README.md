# blitzjson

A JSON encoder core for Python objects, with Django's value types, written in
Verus. The library in `src/` holds the parts whose behaviour can be stated and
proved; the Python extension module in `app/` walks Python objects through
the C API and hands each value to the library.

## Layout

- `src/writer.rs` — `JsonWriter`: the output text, compact or indented, with
  optional ASCII-only escaping. Each method states exactly what it appends.
- `src/json_text.rs` — string escaping, with the proof that escaped text reads
  back as the string it came from and that ASCII-only output is ASCII.
- `src/numbers.rs` — decimal digits (through `itoa` for the writer), zero
  padding, and the proof that digits read back as their integer.
- `src/base64.rs` — Base64 for byte strings, with its length and the proof
  that it decodes back to the bytes.
- `src/temporal.rs` — ISO 8601 text for `datetime` and `timedelta` values:
  the encoder's own, and chrono's for the document path, with the choice of
  pattern and the `Z` for a zero offset decided and proved here.
- `src/ordering.rs` — the stable, code-point order of sorted keys and sets.
- `src/plan.rs` — the encoder's decisions: the order of the type tests, what
  each kind of value becomes, the depth of its parts, and how keys are written.
- `src/document.rs` — the proof that a value written step by step through
  the writer's methods, in the order the encoder uses, comes out as one
  balanced piece of JSON text, and `write_document`, which takes exactly
  those steps over a document of the library's own. That `app/`'s walk over
  Python objects takes the same steps is not verified.
- `src/reading.rs` — a JSON reader written as a specification, and the
  proof that whatever the writer writes reads back as the value written.
- `src/convert.rs` — the decisions of the conversion of Python values into a
  `serde_json` document: the order of the tries and what each kind becomes.
- `src/errors.rs` — the depth limit and the error messages.
- `src/decode.rs` — parsing with `serde_json`, and what `loads` makes of
  each node: which number kind it is, what `parse_int` is handed, and which
  of the object hooks is called.
- `app/` — `dumps`, `loads`, `dump`, `load`, `dumpb`, `dump_queryset` and
  `dump_queryset_bytes` for Python, through `pyo3`; it reads Python objects
  and carries out the library's decisions.
