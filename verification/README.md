# terminal_renderer

A 3D renderer that draws into a terminal: CPU rasterisation with lighting,
24-bit or ANSI 256-colour output with optional dithering, a keyboard-steered
camera, JSON scenes and models, and Wavefront OBJ/MTL models.

* `src/` is the verified library (Verus): the screen buffer, ANSI colour
  reduction and Burkes dithering, the keyboard state, the terminal's frame
  bookkeeping, the combinatorics of frustum clipping, the camera's steering,
  and the OBJ and MTL parsers (with the text handling they need).
* `app/` is the program around it: terminal I/O with crossterm, the
  floating-point geometry and lighting with nalgebra, and the JSON scene and
  model files with serde.
* `tests/` exercises the library.
