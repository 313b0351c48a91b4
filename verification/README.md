# agent_stream_kit

A toolkit for building streams of agents: agents exchange dynamically typed
data over named ports, are wired together by flows, and can write to and read
from named boards.

- `src/` is the library, verified with Verus: agent values and data and
  their JSON forms, agent definitions and configurations, flows and the
  copying of parts of them, the routing state that decides where data goes,
  flow names, chat messages and histories, and what the standard, message and
  prompt agents compute.
- `app/` is the running side: the message loop on Tokio, the agents
  themselves, text formats (JSON, YAML, templates) and scripts, file access,
  and serialisable copies of the library's types.
- `tests/` exercises the library.
