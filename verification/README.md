# color_api

A verified library for reading embedded ICC colour profiles, and the HTTP
service built on it that reports an uploaded image's dominant colours.

`src/` (the verified library):

- `format` — magic-byte detection of JPEG and PNG, and ICC extraction for
  either container.
- `jpeg`, `jpeg_laws`, `key_order` — the APP2 segment walk that collects ICC chunks and
  joins them in sequence-number order; laws: a profile split into numbered
  chunks is read back whole, and the file order of distinctly numbered
  chunks does not matter.
- `png`, `png_laws` — the `iCCP` chunk search (zlib decompression through
  `flate2`); law: the compressed stream written into an `iCCP` chunk is
  what gets inflated.
- `profile`, `description` — the ICC tag table, `XYZ ` colorants as raw
  s15.16 integers, and the profile's `desc` text.
- `store` — the bounded, insertion-ordered image store (at most 128 images,
  oldest evicted first).
- `service`, `requests` — request decisions, the step functions of the two
  handlers, and `#RRGGBB` colour formatting.
- `decode` — image decoding (through `image`) and what is recorded about an
  upload: format name, profile description, size limit.
- `bytes`, `text` — big-endian reading, byte comparison, string building.

`app/` holds the HTTP server (axum), colour
extraction (okmain), the analysis cache (lru), and all floating-point colour
math, including the ICC-to-sRGB matrix.
