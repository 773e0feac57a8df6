# temuera_headless

A headless runner for Era games (ERB scripts with CSV data), written in Verus.
The library in `src/` is verified; `app/` is the terminal program around it.

## Library

- `text`: the text model shared by all parsers (white space, trimming,
  splitting, lines, numbers, ASCII case).
- `assoc`: a small map with distinct keys, used for name tables, labels and
  variables.
- `paths`: final component, stem and extension of a path, and the order of
  paths.
- `sorting`: the stable insertion sort the catalogs order their files and
  functions with.
- `config`: `emuera.config` entries and the decoding of game text files.
- `csv`: CSV rows and the name tables built from numbered rows.
- `runtime`: values, variable addresses and the variable store.
- `expr`: tokenizer, parser and evaluator of expressions.
- `instruction`: decoding of one ERB line.
- `script`: ERB files, the function and label index, function bodies.
- `vm`: the line interpreter. Its behaviour is stated as a small-step
  semantics (`run_function_spec`), and `Vm::run_function` is proved to follow
  it exactly.
- `terminal`: ANSI styling and the Emuera width of text.
- `fs_overlay`, `game`: facts about a game directory that do not need the
  disk.
- `cli`, `console`, `error`: arguments, console commands and errors.
- `banner`: the lines printed when a game is opened.
- `session`: one turn of the console (`console_step`): what a typed line
  does to the console's variables and what is shown.
- `laws`: properties that span several functions (case-insensitive lookups,
  number text round trips, output kept across runs, order of the function
  index, ...).

## Program

`app/` does the input and output: it reads the arguments and the game
directory (walking it, reading and decoding files), builds the
case-insensitive overlay on disk, and runs the console loop, which reads a
line, hands it to `session::console_step` and prints the answer (values and
parsed instructions in Rust's debug notation).  Which files of a walk are
loaded, what they hold, the order of the catalogs, the banner and the
console's answers are computed by the library.
