# anim3d

A small 3D viewer that plays scripted animations on wire-frame models.

- `src/` is the verified library (Verus):
  - `filer`: big-endian codecs, the binary model format (`read_model`,
    `write_model`, proved to round-trip) and the animation file format
    (`read_animation`);
  - `vars`: the table of animation commands and their argument sizes;
  - `animation`: commands and the script machine (`Animation::iterate`),
    which says what each step asks of the model as an `Effect`;
  - `camera`: the ordering of projected polygon corners and the choice of
    how to clip a polygon at the screen;
  - `frame`: what an input event means and which edges of a projected
    polygon to draw.
- `app/` is the program around it: SDL2 window and events, file I/O, and the
  `f32` geometry (vectors, lines, planes, the camera, the model's points).
- `tests/` runs the library on concrete values.
