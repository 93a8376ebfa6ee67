# retsend

A LocalSend (protocol v2.1) receiver and sender for retro handhelds, as a
library whose logic is proved with Verus, and a small program around it.

- `src/` is the library: the HTTP framing the server speaks, the protocol's
  messages and tokens, peer discovery's registry, file-name hygiene and save
  routing, the transfer history, the configuration's ranges, and the state
  machines behind every screen (file browser, on-screen keyboard, routes
  editor, transfer view, toasts, tabs, gamepad and keyboard input). Every
  public function carries a contract, and the laws that span functions are
  proof functions (`lemma_*`).
- `app/` is the program: config and history files, sockets and threads, TLS,
  the clock, and the headless `--receive` front end.
- `tests/` exercises the library on concrete values.
