# Codex OpenAI Gateway

An OpenAI-compatible gateway in front of the locally authenticated Codex CLI. It serves `/health`,
`/health/auth`, `/ready`, `/v1/models`, `/v1/chat/completions` and `/v1/responses`.

What the gateway decides is a library in `src/`, written in Rust and proved with Verus. What it does
to the world around it is a program in `app/`: sockets, child processes, clocks and files.

| module | what it decides |
| --- | --- |
| `config` | which settings work, and which models are offered |
| `request` | which requests are taken, and what they ask of Codex |
| `transcript` | how a conversation is written down for Codex |
| `protocol` | what is said to a `codex app-server` child, and what its lines say |
| `worker` | how a worker deals with its child and its queue of runs |
| `exec_backend` | how the `codex exec` fallback is used |
| `exchange`, `completion`, `stream` | what clients get back, whole or piece by piece |
| `error` | how failures are reported |
| `auth` | whether the credentials work |
| `base64`, `text`, `json`, `identity` | what the others are made of |
| `process` | in which order a process tree is taken down |

Every function of the library states what it returns or changes. Properties that span several
functions are public proof functions, such as `transcripts_are_unambiguous`,
`only_agent_text_and_completion_are_forwarded`, `requests_never_widen_the_sandbox` or
`the_latch_holds_the_last_rejection`.

The proofs rest on what `json`, `identity` and `text` say of `serde_json`, `uuid` and
`String::push`. Each of those statements stands above the call that it is about.
