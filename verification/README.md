# css

`css` discovers, inspects and resumes the current user's Codex CLI sessions on a
Linux host. It matches running `codex` processes in `/proc` with the threads in
`state_5.sqlite`, judges by its rollout log what each session is doing, and
builds or executes the matching `codex resume` command, on the command line or
as a small daemon on a Unix socket.

- `src/` is the library, written in Verus. It holds every decision: which
  processes are sessions of the user, what a log says, which session a target
  means, how a command is quoted, which steps a takeover takes, how a process is
  ended, what a request is answered. Each function carries a contract; the proof
  functions named `law_...` state what holds across functions, such as that a
  shell reads a previewed command as exactly the words of the command that would
  run.
- `app/` is the program around it: arguments, `/proc`, SQLite, signals, sockets
  and JSON.
- `tests/` runs the library on concrete values.

The functions marked `external_body` and the `assume_specification` items are
what the proofs rest on beyond Verus itself: a few functions of std, the JSON
reader of serde_json and the date handling of chrono. The comment above each
says what is taken for granted.
