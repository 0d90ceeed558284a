# fastchat_tui

A terminal chat client for OpenAI-compatible servers (tabbyAPI, SGLang,
Ollama, vLLM, LM Studio), with chats saved as markdown files and a small
retrieval index. The logic is a library verified with Verus; the terminal,
the network and the files are handled by the program under `app/`.

- `src/app.rs`, `src/keys.rs`: the application state, every transition and
  what each key does, each stated over the state's mathematical value.
- `src/storage.rs`: the markdown file format of a chat (writing, reading,
  and the law that reading gives back what was written: id, title, times,
  and each message that is more than white space, with its text trimmed,
  for one-line trimmed ids and titles, message texts without `\r` and
  without a line starting with `# ` or `## `, and times in the years 0
  to 9999 that fall on no leap second), file
  names, and the order of the chat list.
- `src/api.rs`: the request sent to a backend, the server-sent event lines
  of its reply, and the events they give.
- `src/rag.rs`: the chunk index and the embeddings request.
- `src/ui.rs`: what the screen shows, as text.
- `src/laws.rs`: properties that span several transitions.
- `src/text.rs`, `src/time.rs`, `src/types.rs`, `src/config.rs`: text
  helpers, instants and their `chrono` texts, the chat data, the backends.
