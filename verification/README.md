# sandseal

Isolated Docker sandboxes for AI coding agents: layered settings with profiles, the
compose override that mounts a project and hides its secrets, the sandbox images, the
host clipboard bridge, the memory bridge (an MCP server and a recall hook), end-to-end
encrypted frames for remote sessions, and the collector that reaps abandoned sandboxes.

The library in `src/` is written in Verus: every function carries a contract and is
proved against it.

- `json`, `merge`, `validate`: JSON values with key-sorted objects, deep merge, the
  `$replace` directive, and the checks a settings layer must pass.
- `config`: settings, profiles, the state files that say which profile is active.
- `path`: variable and tilde expansion, host and container paths, file exclusions and
  inclusions.
- `compose`: the compose override of a sandbox.
- `image`: image tags keyed on everything that goes into an image, build arguments, and
  the Dockerfile rewrite for the legacy builder.
- `title`: the terminal-title filter.
- `clipboard`: the clipboard bridge's wire format, the `xclip` stand-in's arguments, the
  host clipboard tools.
- `memory`, `mcp`: the memory session, the agent configuration, the MCP server's answers.
- `session`, `identity`, `protocol`, `remote`: keys, sealed frames, rotation, the identity
  key pair, message kinds, terminal sizes.
- `sandbox`: instance records, the sweep report, the cleanup guard.

`app/` is the program around the library: the command line, files, processes and the
network. `tests/` exercises the library from outside.
