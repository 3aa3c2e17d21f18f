# archive-core

A read-only archive-layer reader for forensics, verified with Verus. It peels
gzip, bzip2, tar, zip and 7z layers to reach the evidence inside: an archive is a
transparent layer, so `evidence.E01.gz` reads exactly like `evidence.E01`.

- `src/` is the library. `backend` holds the trusted wrappers round the outside
  codecs and readers; the rest is verified against what they claim.
  - `detect`: the format of some bytes, by magic first and by name second.
  - `peel`: one bare compression layer.
  - `archive`: listing and reading the members of one archive.
  - `tape`, `guard`, `inflate`: which streams the outside tar reader, zip reader and
    Deflate64 decoder can be handed.
  - `resolve` and `laws`: recursive peeling under cumulative guards, and what holds
    of it as a whole.
  - `detour`: the one image inside a wrapper or a one-member archive.
  - `plan`, `execute`, `reassemble`: classification without inflating a payload,
    its execution as a seekable source, and split images as one.
  - `vfs`: the archive layer as an opener over byte windows.
  - `text`, `order`: names, numerals, and the order of segments.
  - `backend`: the outside codecs and readers, with what is claimed of each and not
    proved.
- `tests/` runs the library with the real codecs.
- `app/` is the ordinary Rust around it: `Read` and `Seek` adapters, spill files,
  displayable errors, the `forensic-vfs` opener.
