# buzzcode

A coding agent for models that run on the machine itself, with `llama.cpp` as its engine.

- `src/` is the library: everything that is decided, computed, read or written as text. It is
  written in Verus, and every function is proved to do what its contract says.
- `app/` is the program around it: arguments, files, processes, HTTP, the terminal, and what is
  computed in floating point.
- `tests/` runs the library on concrete values.

## The library

| Part | Modules |
| --- | --- |
| Text and documents | `text`, `decimal`, `json`, `toml_doc`, `digest`, `search`, `stamp`, `rank` |
| Configuration | `config`, `merge`, `paths`, `pathname`, `cli` |
| Engine | `gguf`, `facts`, `vram`, `tune`, `gpu`, `server`, `client`, `manager`, `slot`, `sse` |
| Models | `discover`, `download`, `release`, `catalog` |
| Machine | `ports`, `pidfile`, `sentinel` |
| Agent | `message`, `context`, `tokens`, `registry`, `parser`, `guard`, `permission`, `truncate`, `execute`, `agent`, `turn`, `handle`, `subagent`, `task`, `prompt`, `plan`, `events`, `console`, `setup`, `mcp` |
| Code index | `lang`, `syntax`, `symbols`, `index`, `outline`, `graph`, `repomap` |
| Checks | `doctor`, `bench` |

Calls into other crates (`serde_json`, `toml`, `regex`, `nucleo-matcher`, `blake3`, `sha2`, `lru`,
`humantime`, `tree-sitter`) stand behind small functions whose contracts say what is taken for
granted of them. The public proof functions whose names begin with `law_` state what holds of
several functions together.

Counters and sums that could leave the range of their type stop at its end.
