# mcpanel

A panel for local MCP (Model Context Protocol) servers: it starts and stops
them, shakes hands with them, streams their logs, keeps their credentials in the
OS credential store, and forwards JSON-RPC through a token-guarded gateway on
the loopback interface.

`src/` is a Verus library that holds everything the panel decides, with its
contracts and their proofs; `app/` is the program around it, with the tasks,
pipes, sockets and files.

| module | what it decides |
| --- | --- |
| `text`, `strmap`, `json` | texts, maps ordered by name, JSON values |
| `error` | the error type, its codes, HTTP statuses and messages |
| `db` | the rows of the config store, and which migrations are due |
| `secrets` | keyring accounts, resolving an environment, moving legacy entries |
| `stream` | line framing, sanitizing, bounded delivery with gap markers |
| `protocol` | JSON-RPC frames, correlation, the `initialize` handshake |
| `process` | which signal goes to which process group |
| `state` | the registry of live servers, start attempts, the event stream |
| `lifecycle` | starting, stopping, removing and updating servers |
| `server`, `commands` | the gateway's doors: host, token, timeouts, replies |
| `import` | reading other clients' config files, and importing from them |
| `fixture` | a small MCP server to try the panel on |

Whatever waits (on the database, the credential store, a child, another task)
is split at the wait: a function here takes what the wait yielded and returns
what comes next, and its type says which steps may follow. The properties that
span several calls are the public proof functions whose names start with `law_`.

Parsing and printing of JSON is done by `serde_json`, buffers are `bytes`,
registries are `dashmap`, channels are `tokio`'s, and random bytes come from
`ring`. The functions that call them are marked `external_body`; the comment
above each says what is believed of the crate it calls.

Of other clients, `import` knows where VS Code, Cursor and Windsurf keep their
configs, and no more. The program also looks for the clients that a file
`clients.json` in its data directory lists, each with its name, the directory it
starts from (`home` or `app_data`) and the names below that; a config anywhere
can be read by its path.
