# command_server

A small web console. It serves a main page, a page per configured shell
command and per configured HTTP target, runs a command or fetches a target
when its API path is requested, and answers with JSON.

- `src/` is the verified library (Verus): the configuration model, the
  lookup tables built from it (`id_map`, `sorted_map`), the command and
  proxy answers (`command`, `proxy`), the environment report
  (`environment`), text helpers (`text`) and the logging decisions
  (`logging`).
- `app/` is the program around it: configuration file reading, template
  rendering, the HTTP server and client, process spawning, and the logging
  thread and dispatcher.
- `tests/` runs the library on concrete values.
