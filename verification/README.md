# mcp_gateway

The core of an MCP gateway: it starts MCP servers as child processes, speaks
JSON-RPC to them over their standard input and output, and serves them over HTTP
behind bearer tokens.

`src/` is the library, verified with Verus:

- `config`: the configuration, its defaults and its normalization (with the law
  that normalizing twice is normalizing once);
- `validate`: the checks a configuration must pass, in order;
- `codec`: Content-Length and JSON-lines framing, and the reader's state machine;
- `protocol`: which framing a server is spoken to in, and when to try the other;
- `runtime`: retries, idle eviction, and the identity of a pooled process;
- `manager`: what the process manager does after a failed request (the fallback to
  the other framing and what it learns from it), when a pooled process is reused,
  and how long it waits for a response;
- `registry`: tables keyed by server name;
- `stderr`: the last lines a server wrote to its standard error;
- `auth`, `response`, `error`: bearer checks, the response envelope, error codes;
- `cli`: the commands of the command line;
- `text`, `order`, `json`: characters, the order of texts, and JSON values.

`app/` holds what performs I/O around it: the configuration file, the child
processes and their pipes, the HTTP middleware, and the command line as `clap`
parses it.
