# ternary_warp_block

CPU-side simulation of GPU warp-level primitives for ternary (trit-valued) lanes,
written in Verus. Every operation carries a contract over `Seq<Trit>` and is proved.

- `src/trit.rs` — the trit, its integer conversions and clamped `-`, `+`, `*`
- `src/warp.rs` — `WarpConfig` and the measures (`seq_sum`, `count_of`) used by the contracts
- `src/reduce.rs` — `WarpReduce`: sum, raw sum, majority, max, min, all/any positive
- `src/scan.rs` — `WarpScan`: inclusive/exclusive prefix sums and a custom inclusive scan
- `src/shuffle.rs` — `WarpShuffle`: broadcast, shuffle down/up/by index, butterfly, reverse
- `src/vote.rs` — `WarpVote`: all same, any/all nonzero, ballot, popcount
- `src/laws.rs` — proved properties that relate the operations
