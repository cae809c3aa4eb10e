# planets

The decision logic of a 2D planet sandbox, verified with Verus.

- `src/absorption.rs`: which touching planets merge in a frame, and what a
  merge does besides growing the absorber.
- `src/controls.rs`: what the left button does to planet formation, grabbing
  and camera-locking planets, and where the camera goes.
- `src/texture.rs`: the palette, the random look of a new planet, and the
  RGBA bytes of a planet disc.
- `src/ui.rs`: the named slider settings and the colours of the widgets.

`app/` is the game around the library: the systems that read input, step
the f32 physics, sample the noise and draw.
