# fiducia_routing

The shared key-to-shard routing library, written in Verus. Every routing
function states its result exactly in its contract, over the frozen 32-bit
FNV-1a hash of the key's UTF-8 bytes, and the laws of the routing model
(band layout, region isolation, global keys ignoring the region, unambiguous
domain and organization framing) are proved as proof functions beside them.

- `src/` — the verified library (`hash`, `shard`, `region`, `scope`,
  `lock_coordination`, `args`, `text`).
- `tests/` — runtime tests, including the golden vectors that freeze the hash.
- `app/` — the `fiducia-region` operator CLI: argument and environment
  handling, and the floating-point nearest-region lookup.
