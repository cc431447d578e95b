# cmux-axi

A wrapper over `cmux` that provisions a crew of agents into a workspace laid
out from a template, keeps a `fleet.md` record of which role sits at which
surface, and lets the crew be steered (`send`, `read`, `dev add`, `dev rm`,
`teardown`). Output is TOON by default, JSON with `--json`; exit codes are
0 (success), 1 (operational failure) and 2 (usage or validation error).

Layout:

- `src/` — the library, verified with Verus: the command-line grammar
  (`cli`), the fleet record's line grammar (`fleet`), layout templates and
  their validation (`templates`), seating and launch commands (`layout`), the
  decisions behind each command (`ops`), the settings hook (`setup`), version
  comparison (`version`), TOON rendering (`toon`), and the text primitives they
  share (`text`).
- `app/` — the binary: runs `cmux`, `git`, `curl` and `cargo`, reads and writes
  files, handles JSON and the floating-point sizes of templates, and prints.
- `tests/` — tests of the library.
