# collabdraw

A shared drawing canvas served over websockets, with a small HTTP
interface to manage who may connect.  `src/` is the verified core
(Verus); `app/` is the program around it (sockets, files, logging,
JSON encoding).

Modules of the library:

- `coord` — pen coordinates carried as IEEE-754 bit patterns, and the
  "below zero" test on them.
- `address` — IP addresses and address sets (allow/deny list, read-only list).
- `listfile` — list files: lines that are neither empty nor comments.
- `text` — character and UTF-8 helpers.
- `history` — the bounded history of drawn lines (a `ringbuffer` ring).
- `client` — a connected client, with a randomly drawn colour.
- `server` — the websocket server as a state machine: open, message,
  broadcast completion, close, list reload; its model and laws.
- `rest` — the management interface: Basic authentication, routing,
  replies, allow-list edits.
