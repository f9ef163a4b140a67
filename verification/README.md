# dack

A deterministic harness under a language-model agent. The model decides what to think and say; the
harness decides what is reachable. Each wake starts from a stimulus and walks a ladder of states
(Perceive, Express, Settle, Reflect), and three things bound the walk whatever the model returns:

- the state, which fixes the kinds of tools that may be called;
- the trust of the chain, which starts from provenance and only falls with what the chain touches;
- the firebreak: an acting state opens on a digested baton, never on the raw payload.

## Layout

- `src/` is the verified library.
  - `trust`, `state`, `classify`, `config`, `prompt`: the vocabulary of the rules.
  - `model`: stimuli, batons, the agent's output and how it is read, runlog entries.
  - `harness`: a cycle and its gates, batons, servers, context, sessions, steps, workers, wakes.
  - `runlog`: rendering entries, reading them back, notes, counts, retention.
  - `health`: what the machinery reports of itself.
  - `identity`: `did:key`, Ed25519 signatures, key files.
  - `cli`: what the operator's commands decide and say.
  - `json`, `clock`, `text`, `text_map`: JSON values, times, text and ordered maps.
- `tests/` runs the library on concrete values.
- `app/` is the daemon and the commands: files, processes, sockets, the clock.

Contracts speak of views: a text is a sequence of characters, a JSON value a tree, a stimulus, a
baton or an entry the record of its contents. Laws that relate several functions are public proof
functions beside the functions they speak of.
