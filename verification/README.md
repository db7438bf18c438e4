# rustle

The verified core of rustle, a tool that builds, tests and checks Rust cargo projects on a remote
host. The library is written in Verus: what each function does is stated in its contract and
proved.

## Layout

- `src/proto.rs`, `src/be.rs`: the wire protocol between host and agent. Framing, encoding and
  decoding of requests and responses.
- `src/paths.rs`: relative paths. Exclusion rules, parent directories, the temp dir.
- `src/tree.rs`, `src/walk.rs`: the remote build tree, and the walk that reads it, as a machine
  that asks the file system questions and takes in the answers.
- `src/reconcile.rs`: which directories to make, which files to upload, which symlinks to put in
  place and what to prune, so that the remote tree matches the host's manifest.
- `src/agent.rs`: what the remote agent does with each frame.
- `src/deploy.rs`: where the agent binary goes on a remote, and when it must be uploaded.
- `src/session.rs`: the host's side of a session with the agent.
- `src/tools.rs`, `src/render.rs`, `src/launch.rs`: the MCP tools' arguments, their answers, and
  the server's settings.
- `src/text.rs`, `src/seqs.rs`: texts and numerals, and lemmas on sequences.
- `src/*_laws.rs`: what holds of the library as a whole, as public proof functions. Among them:
  a message survives the wire and a truncated one is refused; a walk finds exactly what is not
  excluded; a plan makes the root and each directory once and before their contents, uploads
  exactly the stale files, and never touches an excluded path, where the manifest's paths are not
  excluded themselves and have no empty parts; a plan that was carried out leaves nothing to do
  for a second one like it, where the manifest's paths are all different, none is excluded, and each upload leaves a
  regular file at its path; an agent counts as deployed only at the path where it was found or
  installed; a plan is shipped only to an agent of the same protocol version.

`app/` is the program around the library: the agent's file system work, the host's planner over
SSH, and the MCP server. It drives the build service of `rustle_core`.

`tests/` runs the library on concrete values.
