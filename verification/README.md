# geonative

A lightweight geospatial library whose logic is verified with Verus.

| Directory | What it holds |
| --- | --- |
| `src/` | the verified library |
| `tests/` | its tests |
| `app/` | the `geonative` command: files, object stores, floating point |

The library:

| Module | What it does |
| --- | --- |
| `geometry`, `feature`, `schema`, `value`, `crs`, `error` | the data model |
| `wkb`, `wkb_laws` | Well-Known Binary, both ways, and bounding boxes read off it |
| `dataset` | layers and datasets without regard to their format |
| `raster` | bands, tiles, grids and the place of pixels |
| `filegdb` | Esri File Geodatabases, from bytes to features |
| `geojson` | GeoJSON, both ways, whole and feature by feature |
| `convert` | which formats meet, what is kept, what is reported |
| `cli` | the arguments of the command |
| `text`, `paths`, `octets`, `float_bits`, `float_convert` | what the others stand on |

Doubles are held by their bits, so every statement about a coordinate is one
about integers. Arithmetic on them is left to `app/`: bringing the integers of a
geodatabase into the units of its layer, the areas of rings, the place of
pixels, and printing numbers.

The JSON parser is an outside library. What the verified code believes of it
stands in `src/geojson/json.rs`; three functions of the standard library are
described in `src/text.rs` and `src/filegdb/bytes.rs`.
