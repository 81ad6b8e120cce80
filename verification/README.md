# para desktop, verified core

The logic of the para desktop preview (a PARA vault browser with a local
filing assistant), written in Verus with its behaviour stated in contracts.

Paths follow the rules of `std::path` on the platform the program runs on:
the path functions take a `windows` flag, and with it set they read `\` and
`/` as separators and drive, UNC, device and verbatim prefixes.

- `src/` is the verified library:
  - `text.rs`, `paths.rs`, `winpath.rs`: string operations and the Unix and
    Windows path rules, with models over `Seq<char>`.
  - `frontmatter.rs`: the YAML front matter reader and `split_frontmatter`.
  - `vault.rs`: where a note is filed, what a first run creates, which note
    opens first, how a note's bytes become a tab, and which vault is opened.
  - `tree.rs`, `order.rs`: the sidebar tree and the vault file list, with
    their ordering.
  - `tabs.rs`: the open tabs and which one is shown.
  - `agent.rs`: the filing assistant's replies.
  - `display.rs`: small display decisions (icons, columns, window frame).
- `app/` is the GPUI program around it: file system access, the window and
  the event loop. It hands the library plain values.
- `tests/` runs the library on concrete inputs.

Public `law_*` proof functions state properties that span several calls,
such as that preparing a vault never overwrites an existing file and that a
second preparation changes nothing.
