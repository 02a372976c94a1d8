# eurochef

Readers and converters for Eurocom EngineX game data, written in Verus: every
function of the library states what it returns in its contract, and Verus
proves the code against it.

## Layout

- `src/texture/`: pixel decoders for PC, Xbox, Xbox 360, GameCube/Wii and
  PlayStation 2 textures, each with a `decodable` check for the sizes that
  its `decode` accepts.
- `src/entities.rs`: assembling triangle strips and indices of entity meshes.
- `src/gltf_export.rs`: the glTF scene of one mesh.
- `src/filelist.rs`: placing packed files in data files, file name tables and
  SCR file lists.
- `src/hashcodes.rs`, `src/maps.rs`: hashcode headers, hashcode names and
  trigger value text.
- `src/script.rs`, `src/spreadsheets.rs`, `src/textures.rs`: animation
  scripts, text spreadsheets and texture diagnostics.
- `src/viewer/`: logic of the viewer: render settings, strip ordering, log
  text clean-up.
- `tests/`: tests run against the compiled library.
- `app/`: a command-line tool over the library (texture decoding to PNG,
  hashcode names, SCR listings, trigger values).
