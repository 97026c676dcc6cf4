# polypus

A small tool that monitors self-hosted services deployed from docker
compose files. A registered service groups the containers of one compose
file; its overall status is derived from what Docker reports for them.

- `src/` is the library, verified with Verus: the compose-file model and
  its queries (`config::compose`), the registry and how a service is built
  from a compose file (`config`), how a registered container is found among
  the containers Docker lists (`docker`), status reading and aggregation
  (crate root), display choices (`ui`) and text helpers (`text`).
- `app/` is the command line: file and Docker I/O, YAML/JSON parsing into
  the library's types, and terminal output.
- `tests/` exercises the library on concrete values.
