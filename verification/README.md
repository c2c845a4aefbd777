# colophon

The deciding half of Colophon, a photo-book composer, as a verified library.

- `src/` is the library. Every function carries a `requires`/`ensures`
  contract over sequences, sets and integers, and Verus proves the body
  against it. The properties that span several calls (a name reads back as
  what it encodes, no path reaches a log line or a printed page, a town is
  named once per stay, the chosen cameras are settled by the photographs
  alone, an album with a duplicate on a spread never passes the linter,
  every photograph of a chapter lands on exactly one spread and never
  beside its twin, a change of format drops no photograph)
  are stated as `loi_*` proof functions beside the code they speak of.
- `tests/` runs the library on concrete values.
- `app/` is the application around it: the disk, the clock, JSON, the
  process-wide log, the browser, and the floating-point measures. It hands
  plain values to the library and takes plain values back.

The library calls into `chrono` to read an EXIF date, and into std for
character conversions; each such call stands behind one small trusted
function whose doc comment says what is believed of it.
