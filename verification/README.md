# my-agent

A personal coding agent. One daemon serves one workspace; the terminal interface,
the command line, the local HTTP interface and the editor adapter are thin clients
that speak to it in JSON-RPC.

The crate has two parts.

- `src/` is the library: what the agent decides and computes, with contracts that
  Verus proves. It does no input and no output.
- `app/` is the program around it: processes, sockets, files, the terminal, and the
  conversion between the library's values and their JSON and YAML forms.

| Module | What it holds |
|---|---|
| `text`, `number`, `path`, `order`, `terms`, `records`, `json` | what the rest is stated with: texts, numbers, paths, sorting, search terms, lines of records, JSON values |
| `outside` | the calls into other crates, each with what is taken as known of it |
| `config`, `provider` | settings, messages, tool calls and their identities |
| `session`, `memory`, `plan`, `skills` | sessions, long-term memory, the plan, the skill library |
| `tools`, `sub_agent`, `mcp` | tools and their arguments, sub-agents, tools of outside servers |
| `slash` | the commands that start with a slash |
| `daemon` | requests, replay, approvals, commands, life cycle, connections |
| `client`, `entry` | the clients: routing of answers, terminal, command line, HTTP, editor |

Statements that span several functions are the public proof functions whose names
start with `law_`.
