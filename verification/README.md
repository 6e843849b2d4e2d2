# figma-framelink-cli

A command line tool that reads Figma files over the REST API, turns them into a
compact design for language models, and downloads the images in them.

- `src/` is the library: all of its logic, verified with Verus.
  - `simplify/` turns a raw document into a design: layout, paints, effects, text
    with its styles, components, shared styles and shared elements.
  - `serialize` writes a design as YAML, JSON or a tree of lines.
  - `images` plans downloads, crops and measures images, and sums up.
  - `figma` and `figma_url` hold the endpoints, the replies and the URLs of
    Figma; `cli`, `config` and `path_util` the rules on arguments and paths.
  - `json`, `float`, `digits` and `strings` are the values that all of these
    work on. Numbers are binary64 values, computed on integers. `json_reading`
    shows what a compact JSON text tells of the value that it is the text of.
  - `outside` holds every contract that is believed and not proved.
- `app/` is the program round the library: arguments, the network, files, and
  the angle of a gradient, which is the machine's `atan2`.
- `tests/` runs the library.

The laws are the public proof functions without `lemma_` in their names. Those
on designs as a whole stand in `simplify/depth`, `simplify/keys`,
`simplify/sharing`, `simplify/references` and `simplify/finished`.
