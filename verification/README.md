# naga_printf

A verified parser for Vulkan `debugPrintf`-style format strings, written in Verus.

A format string is split into literal text and conversion specifiers
(`%` [precision] [`v2`|`v3`|`v4`] type). Where no literal precision is written, the
conversion type's default (1 for integers, 6 for floating point, 0 for `%` and `p`) is
filled in. Errors report their kind, the byte offset of
the specifier (just past its `%`) and its length in bytes up to the next ASCII whitespace.

Layout:

- `src/types.rs`: the data model and its views.
- `src/spec.rs`: what parsing means, as spec functions over `Seq<char>`.
- `src/text.rs`: UTF-8 byte lengths and the character sequence of a `&str`.
- `src/parse.rs`: the parser, proved to compute `spec_parse_format_string`.
- `src/display.rs`: rendering specifiers, format strings and error messages as text.
- `src/laws.rs`: parsing yields well-formed segments; rendered segments parse back to
  themselves; canonical text prints back as itself; literal text in front of a `%` adds
  one segment or moves the error offset.
- `app/lib.rs`: mirror types with `serde`, `arbitrary` and `thiserror` derives.
