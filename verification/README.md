# clispeak

A peer-to-peer speech notifier: an agent on one machine says something, and a
device in the same space speaks it. This crate is the part that decides
things, written in Verus and proved against its contracts.

## Layout

- `src/` — the verified library.
  - `strs`, `order` — text building blocks: trimming, case, splitting,
    decimal rendering, a total order on text and sorting by it.
  - `plain`, `validate` — what text is safe to show, and what text is fit to
    be spoken.
  - `proto` — the messages that travel, and the bytes a join record signs.
  - `spaces` — the spaces a device belongs to, kept sorted by id.
  - `node`, `requests` — what the node decides: resolving `--to`, who may
    act, joining, leaving, renaming, listings, and every refusal's words.
  - `panel`, `shown` — what the desktop window makes of each reply, and a
    reply written out field by field for one nobody expected.
  - `prefs`, `config` — the working agreement with the user, groups, and
    when the config file's lock may be taken.
  - `history`, `ticket`, `identity`, `keystore`, `ipc`, `transport`,
    `mirror`, `rediscovering`, `child`, `skill`, `shell_path`, `winpath` —
    bounded history and the mailbox its writer drains, invites, naming,
    where the key lives, the local handshake and framing, process endings, and paths.
- `tests/` — tests run against the compiled library with its outside crates.
- `app/` — the command-line host: files, the environment, the keyring, the
  history writer's thread, and the prompt hook in an agent's settings file.
  It does not run a node: the peer-to-peer transport, the local socket
  server, the speech engines and the desktop window are built on crates
  this project does not depend on here (iroh, tokio, interprocess, tauri
  and the platform speech APIs). What a node decides on each request and
  each peer message is in `src/` for such a host to call.

Calls into outside crates go through a few wrappers whose contracts are
trusted rather than proved; each says which function it calls and what is
claimed of it.
