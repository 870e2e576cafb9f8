# overlands_agent

The verified core of the Overlands agent: the logic behind the `agent`
command line and the daemon's control socket, proved with Verus.

- `src/` is the library. Each module holds one part of the agent's rules:
  `cli` (what the command line accepts), `protocol` (the requests and where
  each is answered), `events` (the numbered event log), `observe` (chat and
  peers into events), `gifts`, `edit` (the rules every edit and save keeps),
  `json` (records read and written a part at a time by JSON pointer, and
  what a sanitiser adjusted), `look` (the frames a picture takes, its PNG,
  and the pictures kept), `serve` (one write a frame), `control` (the
  socket's own rules and the admin), `texture`, and `text` (string helpers
  with their specifications).
- `tests/` runs the library on concrete cases.
- `app/` is the operator's command line and the socket's plumbing: clap,
  serde, files and threads.
