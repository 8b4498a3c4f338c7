# pipegen

Code generation, validation and description of pipeline manifests, with the
small data-handling pieces that the pipeline plugins share. The library is
written in Verus: each public function states its result in its contract, and
the contracts are proved.

Layout:

- `src/models/`: the manifest model (applications, pipes, objects, data
  types, attributes, dependencies, context stores, error handlers) and how
  each part renders as Rust source.
- `src/ops/`: the pipe graph (components, cycles, paths, pipelines),
  validation, description, analysis and code generation of a manifest.
- `src/bytes.rs`: big-endian integer and UTF-8 text encodings.
- `src/ware/`: Kubernetes log records, Kafka client properties, MQTT options.
- `src/text.rs`: indentation, joining and number rendering.
- `app/`: reading manifests from YAML (serde copies of the model types), and
  printing generated code.
- `tests/`: scenarios on concrete manifests and values.
