# wasm_canvas

A software renderer for a browser canvas, verified with Verus.

- `src/pattern.rs`: the checkerboard tile (side rounded up to a power of two).
- `src/texture.rs`: sampling a tile at any world point with a bit mask, and
  the laws of that wrapping.
- `src/pixels.rs`: packing RGBA bytes into pixels and laying pixels out as
  little-endian bytes.
- `src/keys.rs`: the keyboard controls.
- `src/renderer.rs`: the renderer's frame layout, heading and frame drawing.
- `src/framebuffer.rs`: a one-colour frame buffer.
- `app/`: the JavaScript bindings, the frame timer, and the floating-point
  camera, which hands the library the world point of every floor pixel.
