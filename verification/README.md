# engine

The core of a voxel game engine, written in Verus: chunk bookkeeping, block
geometry, save scheduling and file names, input state, block-model textures,
the server's client table and the game's small rules, each with a contract
that Verus proves.

- `src/` is the verified library. Outside crates (`hashbrown`, `bimap`,
  `tinybitset`, `image`, `std`'s clock) are reached through small trusted
  wrappers whose contracts say what those crates do, as far as it can be
  stated: the clock wrappers state nothing of the time read, and the image
  decoder's result is named rather than restated. Taking a lock is left to
  `app/`.
- `tests/` runs the library on concrete values.
- `app/` is the program around it: the window, input devices, sockets, files,
  locks, terrain noise, movement and ray casting (floating point), and glTF
  models.
