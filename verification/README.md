# airjump

The verified core of the airjump game, written in Verus.

- `src/svg.rs`: the SVG tokens the map reader works on (one variant per
  token kind of the tokenizer), and the trusted wrappers around the
  `svgparser` tokenizer, which only convert its tokens.
- `src/map.rs`: the map reader. It turns the token stream of `map.svg` into
  bodies (circles and rectangles), the start position, the warnings to print
  and the numbers to parse, each body and the start referring to numbers by
  index; its specification is a step function over tokens. `settle_scan`
  decides, from the parse outcome of each number, which warnings are printed
  and how loading ends.
- `src/map_laws.rs`: proved properties of the map reader.
- `src/resolved.rs`: the map with its numbers in place of their indices, and
  the laws stated on it (attribute order, incomplete elements, what an
  element does).
- `src/audio.rs`: the order in which the sound files are read and the audio
  error messages.
- `src/exit.rs`: continuing with the value of a result.
- `app/`: the unverified shell: file reading, floating-point parsing and
  geometry, audio output with `rodio`, the frame loop with `fps_clock`, and
  the browser bindings.
