# pixel_contrib

Core of a toolkit that estimates how many pixels each object of a CAD scene covers from many
view directions. The logic is written in Verus and carries machine-checked contracts.

Layout:

- `src/` — the verified library:
  - `scene` builds scenes (geometries and their instances) from a CAD node tree, and counts them;
  - `spatial` and `simple` assemble geometry pages for the rasterizer, with page-local vertex
    indices and 8-bit object ids;
  - `integer`, `quantization` and `positions` hold the integer side of position quantization;
  - `render`, `text` and `graphics` hold render options and statistics, frames, and the plain
    PGM/PPM encodings;
  - `math`, `progress`, `options` and `utils` hold the frustum tests, progress counting, program
    option values and `clamp`.
- `tests/` — tests of the library.
- `app/` — the program around it: command line, logging, loading CAD files, floating-point
  quantization, frustum planes, color maps, and writing images.
