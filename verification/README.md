# asset-squeeze

Lossless-first image asset optimization for Flutter, React Native and web
projects. The rules that decide what is discovered, what is rewritten and
what is written back live in a library verified with Verus; the command
line program around it does the file system work and runs the external
tools.

## Layout

- `src/` — the verified library.
  - `webp.rs`, `webp_proofs.rs` — the WebP RIFF container rewrite that
    strips EXIF/XMP (and ICC profiles under `--strip all`), with proofs that
    its output is a well-formed WebP file holding the kept chunks
    byte-for-byte, that it is never longer than its input, and that
    rewriting it again changes nothing.
  - `jpeg.rs` — the JPEG segment walk that copies metadata (but never the
    APP14 color-transform segment) into re-encoded images; under
    `--strip safe` the EXIF/XMP (APP1) segments are left out.
  - `svg.rs` — conservative SVG optimization: risky constructs are left
    alone, comments removed, white space between tags collapsed (never
    lengthening, and idempotent), and the result validated as XML with the
    same root element.
  - `png.rs` — lossless PNG recompression through oxipng; a file on which
    oxipng's chunk walk would reach an animation chunk too short for its
    sequence number is refused unless every ancillary chunk is stripped.
  - `refs.rs`, `float.rs` — asset references in JavaScript, TypeScript,
    CSS and HTML sources; React Native density and platform variants.
  - `flutter.rs` — the `flutter.assets` list of a pubspec (parsed with
    serde_yaml_ng) and path joining.
  - `discover.rs`, `path.rs` — discovery rules and file-name handling.
  - `pathset.rs` — sets of paths kept in `std::path::Path` order
    (component by component), into which React Native assets and their
    variants are gathered.
  - `outcome.rs` — per-asset outcomes, the run report and its verdict, and
    the verdict of a whole run.
  - `cli.rs` — option values, backend arguments, tool lookup, the updater.
  - `text.rs`, `kinds.rs` — shared character-sequence helpers and enums.
- `tests/` — tests of the library.
- `app/main.rs` — the `asset-squeeze` command.
