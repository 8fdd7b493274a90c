# lumos

A small ray tracer with a window to set up the camera and the render.

`src/` is the library, with its specifications and proofs:

- `scalar`: real quantities held as IEEE-754 bit patterns, moved but never
  computed with.
- `transform`: poses as 4x4 matrices: identity, position, forward direction,
  moving a pose.
- `camera`: the camera and its pixel position table (which pixel each ray
  belongs to), kept in an `ndarray` array.
- `arrays`: the `ndarray` arrays the library fills, behind trusted wrappers.
- `renderer`: the depth buffer that picks, for each pixel, the closest hit of
  all objects, the depth keys that order hit distances, and the layout of the
  RGBA image.
- `renderer_settings`, `gui`: render types and settings, and how the messages
  of the user interface change the state of its panels and ask for renders.

`app/` holds the window (iced) and the floating-point geometry: ray
generation, intersections with spheres, planes and boxes, depth scaling and
shading.
