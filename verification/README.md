# ai_agent_bridge

A bridge between chat platforms (LINE, Slack, Telegram, Discord, the terminal)
and coding agents (stream-json programs, Agent Client Protocol servers,
one-shot command-line programs, OpenAI-compatible interfaces).

`src/` is a Verus library: it decides everything that can be decided from plain
values, and its contracts say what. `app/` is the program `aab`: it opens
sockets, runs child processes and writes files as the library tells it to.
`tests/` run the library.

| Area | Modules |
| --- | --- |
| Vocabulary | `types`, `text`, `json`, `codec`, `ids`, `split`, `paths`, `calendar` |
| Conversations | `engine`, `session`, `registry`, `store`, `handles` |
| Commands and schedules | `commands`, `builtins`, `schedule`, `scheduler` |
| Agents | `stream_event` and the module of its agent, `acp`, `jsonrpc`, `cli_agent`, `http_agent`, `echo`, `framing` |
| Platforms | `line`, `sign`, `media`, `slack`, `telegram`, `discord`, `stdio` |
| Running it | `config`, `service`, `admin` |

What the library takes from other crates (SQLite, JSON text, concurrent maps,
HMAC, base64, URLs, Azure connection strings, UUIDs) it takes through functions
marked `#[verifier::external_body]`, whose comments say what is believed of the
call. Two kinds of statement stay outside the proofs:

- Whether the database accepts a read or a write. The contracts say what is
  asked of it, what each of its answers comes to, and what it then holds, for a
  connection that nobody else writes through.
- What the clock and the random number generator return. Functions that ask
  them have a neighbour that takes the answer as an argument and whose contract
  is exact.

Times are in milliseconds since 1970, in UTC.
