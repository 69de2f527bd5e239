# openai_assistant

A command-line companion for an OpenAI assistant: it keeps an agent (a
directory with an `agent.toml`, an instructions file and a `.agent` data
directory), makes sure the assistant of that name exists on the service,
uploads its instructions, and holds a conversation thread. The library also
decides how files are uploaded to the assistant.

- `src/` is the verified library: command parsing (`cmd`), the decisions
  about assistants, runs, thread messages and uploaded files (`ais`), the
  agent's paths (`agent`), and path joining and glob filters (`utils`).
- `app/` is the program around it: the service calls (async-openai), the
  file system, the terminal, and the async runtime. It hands the library the
  values it read and performs the steps the library chooses.
- `tests/` runs the library on concrete values.
