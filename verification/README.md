# blob_simulator

A slime-mould simulation. Blobs wander over a trail map, leave their colour
on the cell they stand on, and steer towards the strongest trail their
sensors read; between frames the trail map is blurred over 3x3
neighbourhoods and evaporates one unit per channel every other frame.

- `src/` is the verified library: the trail map (`trail_map.rs`, with its
  laws in `trail_laws.rs`), colour packing (`color.rs`), the blob's trail
  sampling, steering decision and spawn-radius check (`blob.rs`), and the
  grid dimensions (`config.rs`).
- `app/` is the program around it: the window and event loop, and the
  blobs' floating-point motion, sensing and spawning.
