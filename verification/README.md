# verditum

The verified core of Verditum, a viewer for UYAP `.udf` documents, written
in Verus.

- `src/` is the library. Its functions are verified against their
  contracts, except the small `external_body` wrappers around calls into
  outside crates and std (`zip`, `roxmltree`, `cms`/`der`/`x509-cert`,
  `ring`, `base64`, string conversions), whose contracts are trusted; each
  says in its doc comment what it claims of the call:
  - `udf`, `directory`, `zip_entries`: reading the archive, refusing one that
    carries a protected entry twice;
  - `signature`, `signed_data`, `cms_der`, `crypto`: the offline CMS check of
    `sign.sgn` over the exact bytes of `content.xml`;
  - `xml`, `model`, `attrs`: the template as a tree of elements with resolved
    named styles, inherited attributes and text from the content pool;
  - `layout`, `images`, `cmap`: what the PDF export decides without measuring
    (how each element is laid out, which formatting is approximated, text
    characters, colours, cell borders), the base64 data and pixel planes of
    embedded images, and the fonts' `ToUnicode` maps;
  - `session`, `update`: the viewer's state between commands and the steps of
    the update check.
- `tests/` runs the library on concrete documents, including signatures made
  with freshly generated keys.
- `app/` is the Tauri application around the library: file and network I/O,
  dialogs, the PDF renderer, whose measurements are floating point, and the
  reading of image files, whose decoders may panic on malformed input.
