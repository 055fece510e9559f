# omni-code

A proxy that routes the chat requests of LLM command-line tools to
configured upstream providers (OpenAI-compatible ones, and ones spoken to in
Anthropic's message format), logs each request and reports token use and cost.

- `src/` is the library, verified with Verus: JSON documents and their
  values (`json`), text helpers (`text`), configuration and `${NAME}`
  expansion (`config`), routing (`router`), the upstream request and reply
  handling of each kind of provider (`provider`), what the HTTP endpoints
  answer and log (`server`, `logging`) and cost accounting (`cost`).
- `app/` is the program around it: command line, configuration file, HTTP
  server and clients, SQLite request log and usage report.
- `tests/` runs the library on concrete inputs.
