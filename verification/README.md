# rgfx

Renders images, animations and 3D meshes in a terminal.

- `src/` is the library: framebuffers and character grids, line drawing and triangle filling, frame
  animations, mesh welding and simplification, STL and glTF assembly, posing, image decoding and
  dithering, animated GIFs, media detection, settings, the state machines of the
  interactive viewers, the raw-frame stream protocol and the `info` report. Every function carries
  its contract, and Verus proves it. Laws that span several functions are the public proof functions
  whose names begin with `law_`.
- `tests/` runs the library on concrete values.
- `app/` is the program around it: arguments, files, the terminal, and all floating-point
  arithmetic.

Numbers that are floats at run time are held as their bits (`single::Single`), so that the library
can compare, clamp and store them exactly; it never calculates with them. Where a result needs
arithmetic on them, the caller hands in that result, or a closure that computes it.

A few functions of other crates are called through wrappers whose contracts are believed rather than
proved. Each says in its doc comment what it calls and what it claims: image decoding, resizing and
GIF frames (`image`), STL parsing (`stl_io`), cells of a `ratatui` buffer, the text of an I/O error,
and the quoted form of a string.
