# skem

A lightweight CLI tool to download specific files from remote Git
repositories and run hooks on changes.

- `src/` is the library, verified with Verus: the configuration and lockfile
  model, change detection and lockfile updates, configuration validation,
  adding and removing dependencies, path stripping, the entry list of
  interactive `add`, and the text that `ls`, `check` and errors print.
- `app/` is the command line around it: argument parsing, YAML and JSON
  Schema, git and hook processes, file copying, prompts and self-update.
- `tests/` runs the library on concrete inputs.
