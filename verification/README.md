# zed_java

Java support for the Zed editor: the extension that installs and starts the language servers, the
proxy that stands between the editor and the Java language server, and the bridge that supplies the
Gradle language server with the model of a build.

The logic is a library under `src/`, verified with Verus:

- `text`, `json`, `table`, `codec`, `path`, `windows_path`, `uri`, `environment`: what the rest is
  made of.
- `lsp`: the framing of messages.
- `lsp_proxy`: the proxy. `routing` decides what becomes of each message, `decompile` which class
  sources are fetched for whom, `pending` who gets an answer, `output` in what order messages are
  written, `sources` and `completions` how answers are rewritten, `cache` where fetched sources are
  kept, and `disk` what their files hold while several processes write them.
- `gradle`: the bridge. `rpc` is the connection to the task server, `server` the course of a build
  request, `model` what the language server is told of a build.
- `extension`: the extension. `config` reads the settings; `jdtls`, `gradle_ls`, `bazel` and
  `native` decide step by step how a component is installed, `downloadable` when.

Files, processes, sockets, threads and the clock are in `app/`. It performs the steps that the
library decides on, and hands the outcomes back.

Calls into other crates go through wrappers with stated contracts; a doc comment above each says
what is taken on trust.
