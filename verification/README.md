# stprobe

`stprobe` is `ffprobe` for `.safetensors`: it prints a stable plain-text
summary of a file's header (size, tensor count, parameters, tensor bytes,
metadata, dtype breakdown, and each tensor's name, dtype, shape, element count
and byte size) without reading the tensor data. It reads local files, and
remote ones over HTTP(S) with two range requests: the eight-byte length prefix
and the header.

The library is written in Verus and verified:

- `src/text.rs`: decimal formatting and parsing, string order and search.
- `src/layout.rs`: the length prefix of a safetensors file.
- `src/shape.rs`: element counts and the display of shapes.
- `src/header.rs`: the header as the `safetensors` crate parses it (trusted
  bindings to `safetensors` and `serde_json`).
- `src/report.rs`: the report built from a header, and its rendering.
- `src/error.rs`: the errors and their messages.
- `src/input.rs`: local path or URL, and the `Authorization` header.
- `src/remote.rs`: the checks on each HTTP response.
- `src/probe.rs`: the remote probe as a state machine of requests and checks.
- `src/inspect.rs`: inspecting a whole local file, read by
  `SafeTensors::read_metadata`, or the header of a remote one.
- `src/laws.rs`: properties that span these functions.

`app/main.rs` is the command: argument parsing, file mapping and HTTP requests.
