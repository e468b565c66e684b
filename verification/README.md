# fishtank

A shoal of fish and a few sharks in a spherical world, drawn with wgpu.

- `src/` is the verified library:
  - `field` — the cubic grid that the world's fields (fish density, heading,
    cell centres) are stored in: cell/index conversion, clamping, lookups;
  - `stencil` — the offsets of the cells within sight of a cell, with proofs
    that they are exactly the cells in the ball, symmetric, and, in a grid
    more than twice as wide as the sight range, distinct;
  - `shark` — the sharks' roam/hunt behaviour, with proofs of when a roam
    ends in a hunt, and the roam lengths drawn exactly as `f32` arithmetic
    gives them;
  - `control` — the frame loop's decisions: event handling, frame pacing
    (with a proof that frames never outnumber the elapsed frame intervals),
    answers to presentation failures;
  - `instances` — when an instance buffer is recreated or rewritten.
- `app/` is the program: floating-point motion of the fish and sharks, the
  camera, the window and the GPU renderer. Shader sources are read at start-up
  from `shaders/fish.wgsl` and `shaders/shark.wgsl`.
- `tests/` exercises the library.
