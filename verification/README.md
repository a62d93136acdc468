# mfl_inv

A command-line tool for magnetic flux leakage (MFL) pipeline inspection: it reads
raw binary dumps from an inspection pig, inverts the radial field into wall-loss
depths, and prints an ANSI-coloured unfolded wall map with defect statistics.

## Layout

- `src/` is the verified library (Verus). It holds the integer and text logic of
  the tool, each public function with a contract:
  - `severity`: defect severity classes, their labels and terminal colours;
  - `frames`: decoding of raw frames (2- or 4-byte readings, either byte order)
    and encoding of samples, byte-order names;
  - `scan`: file geometry, the overlapping chunk plan used to read a dump in
    parallel, byte ranges of sample blocks;
  - `progress`: batching and throttling of progress reports;
  - `cluster`, `grid`: 8-connected clusters of corroded cells, found by
    depth-first search;
  - `stats`: severity tallies, stitching of per-segment maps, grid construction;
  - `map_layout`, `legend`, `alert`: which points the wall map shows, the tick
    columns, the severity legend and the over-pressure banner;
  - `noise`: the bit mixer behind the simulated sensor noise of test files.
- `app/` is the program around it: command-line parsing, memory-mapped file
  access, thread pools and channels, and the floating-point physics (dipole
  inversion, filters, ASME B31G evaluation, depth formatting).
- `tests/` runs the library on concrete inputs.
