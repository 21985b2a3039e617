# myco

The package manager and runtime logic of the Myco JavaScript runtime, written
in Verus and verified:

- `src/` is the library. Manifests, package names and versions, dependency
  resolution and lockfiles, publishing to a registry index, capability tokens
  and what they grant, module paths, stack-trace mapping, the event loop's
  decisions and the DevTools endpoint's HTTP and WebSocket handling each
  carry contracts that Verus proves. Calls into outside crates (hashing,
  Base64, URLs, `toml_edit`, `sourcemap`, `pathdiff`, `rand`) sit behind small
  trusted wrappers whose contracts say what those crates do.
- `app/` is the `myco` command line: argument handling, files, network and
  sockets, around the library.
- `tests/` runs the library on concrete inputs.
