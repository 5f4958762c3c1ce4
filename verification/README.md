# makerz

A thin wrapper around cargo-make's `makers`: it walks up from the current
directory to the nearest `Makefile.toml`, runs `makers --cwd <that dir>`, and
can hand the directory it was started from to the Makefile through a
`# @makerz = "caller"` directive on an `[env]` key.

## Layout

- `src/` — the library, verified with Verus:
  - `cli` — makerz's own flags (`--help`, `--version`, `--init`, `--extend`);
  - `directive_syntax`, `directive_parser` — the line scan for `[env]` keys and
    makerz directives, and the assembly of the env bindings;
  - `toml` — the calls into `toml_edit` (parsing, item lookups);
  - `location`, `discovery` — the nearest Makefile on an upward walk;
  - `caller` — the `--env` entry of the `caller` directive;
  - `makers` — the argv handed to `makers` and what its exit means;
  - `extend_chain` — the walk along `extend` links, refusing cycles;
  - `error` — the error type and exit codes;
  - `path`, `text` — paths as OS bytes, and char-level helpers.
- `app/` — the program: reads arguments, the filesystem and the environment,
  runs `makers`, prints messages.
- `tests/` — tests of the library.
