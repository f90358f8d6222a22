# be_core

The verified core of the `be` editor, written in Verus.

`src/` is the library; every function in it carries a contract that Verus
proves:

- `terminal`: the screen model of the built-in terminal (grid, cursor,
  scroll region, alternate screen, character sets, modes), what each control
  function does to it, and the bytes sent back for keys, mouse, focus and
  pastes.
- `input`: turning keystrokes into editor actions, vi style.
- `lsp`: framing of language-server messages, the kinds of JSON-RPC messages,
  UTF-8/UTF-16 columns, and the requests waiting on answers.
- `notify`: sets of changed paths, merged so that a changed directory stands
  for everything under it, and the versions of changes a workspace keeps.
- `gui`: the command line (edited a grapheme cluster at a time) and the file
  tree (what it shows, the highlighted line, opening and closing directories,
  version-control statuses), plus the small types the views share.
- `text`, `fatal`: small helpers.

`app/` holds what runs around it and is not verified: the pseudo-terminal and
its event loop, the language-server process and its worker thread, reading
directories for the file tree, and the shared handles and tasks.

`tests/` runs the library on concrete cases.
