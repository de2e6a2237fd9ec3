# bahn

The logic of `bahn`, the build tool of the mond language, as a library whose
behaviour is stated in contracts and proved, with a thin command-line program
around it.

- `src/` — the library:
  - `otp` — reading the OTP major release that `erl` prints;
  - `toolchain` — deciding whether `erlc`, `erl` and `rebar3` are usable, and
    the error messages;
  - `exports` — a lexer for mond source text and the names a module exports;
    the exports of the project's dependencies;
  - `compile` — turning what the compiler reports into compile outputs;
  - `clean` — which entries of the target directory a clean removes;
  - `files` — picking the mond source files of a directory walk, in path order;
  - `manifest` — the project manifest and semantic versions;
  - `styles` — the look of the command-line help;
  - `text` — characters, white space and trimming.
- `app/` — the program: running `which` and `erl`, walking directories,
  removing files, the target lock, reading and writing `Mond.toml`.
- `tests/` — tests of the library.
