# Rich Media Viewer

The verified core of a local-first desktop app for cataloging and viewing image and video
libraries. Media stays in place; the catalog stores paths and metadata only.

## Layout

- `src/` is the library. Every rule of the catalog stands here with its contract, proved by Verus:
  - `text`, `order`, `collections`, `batches`, `json`: texts, stable sorting, maps keyed by text,
    batches and JSON values.
  - `paths`, `discovery`, `indexing`, `photo`, `scan`: which files belong to the catalog, how a
    folder tree is searched, what becomes of a file, what its Exif data tells, and how a scan
    counts and reports.
  - `walk`, `sweep`, `rescan`: what holds of whole searches and whole scans of a disk that does not
    change.
  - `sql`: the statements that read the catalog, with every value bound to a placeholder.
  - `candidates`, `exact`, `hashing`, `visual`, `likeness`, `duplicates`: copies of pictures, byte-identical or
    alike, and which of them to keep.
  - `ignored`, `cleanup`, `progress`: cleanup plans, what may be deleted by them, and what is shown.
  - `sidecar`, `pool`, `faces`, `embeddings`, `vectors`, `semantic`: requests to the media sidecar
    and its answers, the pool of face processes, people, stored vectors and semantic search.
  - `tuning`: how many workers each phase uses.
- `app/` is the program around it: windows, database, processes, threads and floating-point
  arithmetic.
- `tests/` runs the library on concrete values.

## What is proved, and what is believed

Contracts state results over mathematical models. Laws that span several functions stand beside
them as proof functions: a cleanup never deletes every file of a duplicate group, only files that a
plan lists are deleted, no file is in two kinds of groups, a search shortlist keeps the best, stored
vectors read back, no two calls share a face process, every file of a scan is taken up once, a
search finds every file that can be reached, a media file is indexed or listed as ignored and never
both, a second scan of the same disk writes nothing.

A few calls into other crates are believed rather than proved: parsing and quoting JSON
(`serde_json`), SHA-256 (`sha2`), Exif fields (`exif`) and calendar dates (`chrono`). Each has a
wrapper whose comment says what is claimed of it.
