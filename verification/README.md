# wem

A tool that creates directory trees from small scripts (`make`), lists the
available scripts (`list`), and writes a script that describes an existing
tree (`read`).

- `src/` is the verified library: the lexer (`lexer`), the readers of
  definitions (`defs`), descriptions and references (`headers`), card
  replacement (`cards`), the tree reader (`tree`), the script writer
  (`writer`), path helpers (`paths`), and the steps of the commands that
  compute (`make`). Each reader is specified as a fold over the tokens;
  `reread` follows a written script back through lines, tokens and the
  tree reader, and `laws` holds the properties that span calls, among
  them that a written walk of a tree reads back as that walk where the
  walk goes back up at most one level at a time (the writer closes one
  level per step), lists each entered directory once, has names that read
  back as single tokens, and holds no pretexts.
- Variables are kept in `StrMap`, a vector of key/value pairs whose keys
  are distinct, in place of a `HashMap` keyed by `String`: Verus proves
  what a `Vec` holds, while of a `String`-keyed hash map it proves little.
  Variables are therefore listed in the order of their numbers.
- The time card is `%DATE%`, rendered in the format given by `-t`.
- `app/` is the command-line program: argument parsing, the configuration
  file, directory walking, file reading and writing.
- `tests/` runs the library on concrete scripts.
