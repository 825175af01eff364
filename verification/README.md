# wolf3d_rs

A small Wolfenstein 3D style game whose core is verified with Verus.

- `src/` is the verified library: decoding of the MAPHEAD / GAMEMAPS / VSWAP data
  files (little-endian reads, Carmack and RLEW decompression, map headers and planes,
  wall pages), the search for a data set in a directory, what a map holds (doors,
  enemies, player start), the built-in fallback level, the entity store, the object
  pool, the event bus and HUD log, the game state machine, and the discrete rules of
  doors, tile blocking, enemy states and weapon hits. Every function carries a
  contract, and the properties that span functions are stated as proof functions.
- `app/` is the game around it: reading files and the environment, the frame loop,
  input and drawing with macroquad, and everything measured in floating point
  (positions, angles, door motion, enemy movement, aiming).
- `tests/` exercises the library on concrete inputs.
