# curio_editor

The logic of the Curio game editor as a verified library: the asset tree
and its file conventions (listings, `.meta` sidecars, the asset manifest,
free file names), prefab files and their `base:` inheritance, the prefab
inspector's models, the live inspector's reading of field values, the
running game's object tree, the console, playback and build state, the
game runner's decisions, the unpacking of `.anim` archives, and the frame
path to the viewport (readback padding, PNG and base64).

- `src/` — the library, every function with a contract proved by Verus.
  Calls into `image`, `base64`, `zip`, the clock, the file system's
  `exists` and a few of std's character and string functions sit behind
  small trusted wrappers whose contracts are stated where they are
  declared.
- `tests/` — tests of the library on concrete values.
- `app/` — a headless driver: reading and writing files, YAML and JSON
  through serde, the build process, plugin loading, the floating-point
  parts (transform values, the live inspector's numbers as `f64`), and the
  channel that hands frames to the stream thread.
