# rm4dev

`rm4dev` creates, resumes and inspects Podman containers for agent development
(`rm4dev-agent-*`), and builds their default image from a build context embedded in the
binary.

- `src/` is the verified library: container naming, command-line interpretation, mount
  parsing, `podman ps` parsing, the start/resume decision, web port allocation, the
  `podman run` argument list and the steps of creating a container, the `agent list` table,
  the embedded-context hash and unpack plan, and the error texts. Every public executable
  function has a contract that Verus proves.
  `src/laws.rs` states the properties that span several functions.
- `app/` is the command-line program: argument parsing and help with clap, running
  `podman`, environment variables, the clock, sockets and the file system. It hands plain
  values to the library and carries out what the library decides. `app/context.rs` holds
  the embedded `nix-fedora` image build context.
- `tests/` exercises the library on concrete values.
