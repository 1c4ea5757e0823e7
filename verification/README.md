# mc_seed_finder

Searches Minecraft world seeds for swamp-hut AFK farm clusters (double huts
of adjacent regions, quad huts of a 2x2 region block), with the library part
proved correct in Verus.

- `src/rng` — `java.util.Random`'s 48-bit generator (`new`, `next(bits)`,
  `nextInt(bound)`), specified over the mathematical state. `rng/period.rs`
  proves the generator has full period, which makes `nextInt`'s rejection loop
  terminate.
- `src/structures`, `src/placement` — the swamp-hut configuration and the
  region-grid placement (`get_structure_chunk`), with the wrap-around
  arithmetic of the region seed stated exactly.
- `src/conditions` — the double- and quad-hut geometric conditions, on exact
  integer block coordinates.
- `src/search`, `src/lib.rs` — the pass-1 scan over a seed interval, the
  selection of the candidates that the biome check confirms, and the
  interval validation of the command line.
- `app/` — the command-line program: clap parsing, the Rayon-parallel scan,
  the cubiomes biome oracle (C FFI), timing and printing.
