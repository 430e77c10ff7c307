# Phone Sync server

A self-hosted photo/video backup server for a phone app, with a private web
gallery and a small public media site. Uploads are filed by capture date into
`<media root>/<year>/<yyyymm>-<suffix>/`, de-duplicated by SHA-256, and served
back with `Range` support, immutable caching and per-rendition tags.

## Layout

- `src/` — the verified library (Verus). The server's decisions are made
  here under contracts: `Range` parsing and the reply it calls for, tags and
  conditional requests, the HEIF box walk and EXIF orientation, the ffmpeg
  filter graphs and encoder options, the media index and its paging, the
  capture-date filing and naming rules, content hashing and the check of
  assembled chunks, placing identical content on its stored copy, chunk
  bookkeeping, the publish index, its variant lists and feed, settings and
  connection limits. Laws that span several functions are public proof
  functions next to the code they are about. What the library cannot see is
  left to `app/`: whether a file exists and the bytes a decoder or ffmpeg
  produces.
- `app/` — the server around it: environment, filesystem, ffmpeg/ffprobe
  processes, image decoding, JWT, HTTP routing and sockets. It hands the
  library plain values and acts on what comes back.
- `tests/` — tests of the library on concrete values.
