# warp_ninja

Function and type matching for WARP signatures in Binary Ninja, with its logic proved by Verus.

- `src/` is the verified library:
  - `masking.rs`: which instructions of a basic block go into its GUID and which of their bytes
    are masked (blacklisted and variant instructions, relocatable addresses), and the ordering of
    a function's basic blocks.
  - `analysis.rs`: what the library reads of the binary under analysis (functions, call sites,
    adjacent functions).
  - `signature.rs`: WARP functions, types, symbols and constraints, with their mathematical views.
  - `cache.rs`: the per-view caches of function GUIDs, built functions and matches, kept in
    `dashmap` maps, and the call-site and adjacency constraints of a function.
  - `function.rs`: building the WARP function of an analysed function.
  - `container.rs`, `container/memory.rs`, `container/disk.rs`: containers of signature data,
    made of sources.
  - `matcher.rs`: the matcher's settings and the choice of a match among candidate functions.
  - `view_types.rs`: adding a WARP type, and the types it refers to, to the types of a view.
- `tests/` runs the library on concrete values.
- `app/` is the Binary Ninja plugin around the library: commands, the analysis workflow, the
  render layer, the C interface, settings registration and reading signature files from disk.
