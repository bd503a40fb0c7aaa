# Hermes

A programmable HTTP/S traffic inspector and replay tool: a local proxy that
shows traffic in the terminal, keeps it, runs scripts on it and sends it again.

- `src/` is the library, verified with Verus: message heads and bodies, the
  course of a proxied exchange, script decisions, stored transactions, replay,
  and what the terminal shows.
- `app/` is the program around it: connections, files, the terminal.
- `tests/` runs the library on concrete values.

Scripts are `.rhai` files; the stem of the file name is a glob pattern for the
URLs that the script is asked about. A script exports `fn handle(req)` and
answers with `"passthrough"`, `"drop"`, `#{ modify_headers: [[name, value], …] }`
or `#{ mock: true, status: N, body: "…", headers: […] }`.

A script is stopped after 100,000 operations. It cannot run on for ever or bring
the proxy down in other ways either:

- `sleep` returns at once.
- `eval`, `import`, `curry` and functions that are written in place do not
  compile.
- `parse_json` fails, as do `pad` for a text with a text and for an array,
  sorting other than by a function of the script, and printing or comparing whole
  arrays and tables.
- Texts hold 16 MiB, arrays 360 items and tables 40 entries, nested ones counted
  in. Calls nest five deep.

A pattern has at most 1,024 characters.

Request and response bodies are kept up to 16 KiB.
