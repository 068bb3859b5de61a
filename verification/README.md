# hnsw_toolbox

Low-memory extraction of Chroma/hnswlib persisted HNSW indices (`header.bin`,
`data_level0.bin`, optional `index_metadata.pickle`) and rebuilding of an index from a
Parquet or Arrow IPC export.

- `src/` is the verified library: the header format and its consistency rules, the
  record-by-record decoding of the level-0 data, the metadata join, the build options
  and the reading of each input row, each with its contract and the laws that tie them
  together.
- `app/` holds what surrounds it: files, Arrow/Parquet batches, the `fast_hnsw` index
  (which stores `f32` vectors), pickle and JSON decoding, and the exported C functions.
- `tests/` runs the library on in-memory fixtures.
