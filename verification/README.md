# typship

Verified core of `typship`, a package tool for [Typst](https://typst.app).

- `src/` is the library, written in Verus: package specifications and their
  order (`pkgspec`, `listing`), the `package list` / `package path` logic
  (`package`), plain-text tables (`table`), the `host` CI matrix (`host`),
  the release workflow of `generate` (`generate`), Universe registry archive
  URLs (`pack`), the registry coordinates (`registry`), and the request rules
  of the caching registry proxy (`proxy`). `text` holds the character-level
  operations they share.
- `app/` is the program around it: the command line, file system and network
  access, the JSON output of `host`, and the proxy server.
- `tests/` runs the library on concrete inputs.
