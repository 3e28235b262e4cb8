# bblog

A small blog's account and page logic together with a set of string, slice
and array exercises, written in Verus and verified.

- `src/` is the verified library: UTF-8 conversion (`string_conversion`),
  line splitting and file reports (`file_lines`), the hex dump (`hex_dump`),
  number formatting (`numfmt`), trimming and `u32` parsing (`prompt`),
  joining, chopping, reversing, slicing and incrementing, and the blog's
  accounts (`auth`, with bcrypt) and pages (`blog`).
- `tests/` runs the library on concrete inputs.
- `app/` is the command-line program: it reads files and standard input,
  talks to the SQLite database, and prints what the library computes.
