# ProxyClawd, verified core

A man-in-the-middle proxy that shows the prompts and the streamed answers of
a coding assistant's command-line client, with a terminal view, a web
server and a model-context-protocol companion server.

- `src/` is the library, verified with Verus: the server-sent event parser
  (`sse`), the model of parsed JSON, its parsing through serde_json and
  the reading of request bodies (`json`, `state`), the terminal view's
  state, focus and panels (`state`, `tui`), the proxy's decisions on
  requests, headers and responses and the events it reports (`proxy`),
  what goes into the certificates it issues through rcgen, which key signs
  them, the chain and key its TLS configurations present, and the cache
  of those configurations (`tls`), the
  companion server's mirror, selections, previews and counts (`mcp`), the assistant command (`subprocess`), and
  character-level string helpers (`text`).
- `app/` is the program around it: sockets, TLS, the terminal, the web
  server, JSON serialization and the companion server's protocol.
- `tests/` runs the library on concrete values.
