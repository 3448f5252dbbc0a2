# alfred

The library of a plugin-first, Emacs-inspired terminal text editor with an
embedded Lisp, written in Verus: the editor's logic carries `requires` /
`ensures` contracts that Verus proves.

## Layout

- `src/` — the verified library.
  - Text and editing: `buffer` (a rope-backed text with line structure),
    `lines`, `cursor`, `viewport`, `text_object`, `rainbow_csv`.
  - Editor state and dispatch: `editor_state` (keymaps, line styles),
    `command`, `hook`, `key_event`, `handlers`, `facade`.
  - Display: `panel`, `overlay`, `theme`, `browser`, `syntax` and
    `highlighter` (tree-sitter parsing and highlight ranges).
  - Lisp: `lisp` (the runtime), and the logic of the Lisp primitives in
    `bridge`, `lisp_editor`, `lisp_panels`, `lisp_theme`, `lisp_settings`,
    `lisp_strings`, `lisp_lists`, `lisp_hooks`, `lisp_files`.
  - Plugins: `plugin` (metadata, discovery decisions, the registry).
  - Helpers around outside crates and std: `rope_text`, `text`, `paths`,
    `str_map`.
- `tests/` — the tests, run against the compiled library.
- `app/` — the program: command line, files and directories, the terminal
  front end, and the registration of the Lisp primitives into the
  interpreter.

## What is proved, and what is trusted

Calls into `ropey`, `tree-sitter`, `rust_lisp` and parts of std go through
small trusted wrappers whose contracts restate the outside crates' documented
behaviour; everything above them is verified.

Evaluating Lisp runs user code in the `rust_lisp` interpreter, which may panic
(an integer division by zero such as `(/ 1 0)`) or never return (endless
recursion overflows the stack); which programs do cannot be told from their
text. So the library parses a program (`LispRuntime::parse_program`) and reads
an evaluation's outcome (`LispRuntime::evaluation_result`), both verified, and
the evaluation call itself stands in `app/` between the two.
