# wisp

The core of an LLM chat application built around MCP tool servers and
several characters ("pals") answering in one conversation, written in Verus:
the library's functions carry contracts that Verus proves, except the small
wrappers around outside crates (serde_json, base64, image, tokio-util,
async-openai, uuid), whose contracts are believed as their sources state.

## Layout

- `src/` — the verified library.
  - `chat` — the conversation store: conversations, messages, and the thread
    links between them; paths from a thread's first message to a leaf,
    default leaves, whole threads, trees, deletions.
  - `engine` — a turn driven round by round: the model answers, its tool
    calls run, their results are stored, until it answers without calls or
    the rounds run out.
  - `turn` — the same turn as the application streams it: each round stores
    a draft answer, takes what was streamed, and says whether to run tools
    or stop.
  - `multi_pal`, `orchestrator`, `director` — rounds in which several
    characters answer one message, and the director that may call one more.
  - `tool_parser`, `tools`, `naming`, `rounds`, `payload`, `stream` — tool
    calls written into model text, tool results and how a model reads them,
    the prompts and messages sent, and what a stream adds up to.
  - `registry`, `listing`, `refresh`, `mcp_types`, `mcp_config`, `rpc` — MCP
    tools, refreshing them from the connected servers, the servers'
    configuration, and the JSON-RPC lines spoken to a server.
  - `send` — storing a sent message, choosing how it is answered, and
    storing the replies.
  - `config`, `provider`, `model`, `character`, `skills`, `chore`,
    `native_tools`, `images`, `abort` — settings, models, skills, image
    compression, and the streams that can be stopped.
  - `json`, `text`, `order` — JSON values, text, and sorting.
- `tests/` — tests run against the compiled library.
- `app/` — the parts that do I/O: MCP server processes, model streams, the
  loops that await them, and image work on blocking threads.
