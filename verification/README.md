# depup

Checks, updates and audits the dependency versions of Maven and npm projects.

- `src/` is the library, written in Verus: the data model, the filters and
  glob patterns, version comparison, POM parsing and format-preserving POM
  rewriting, module discovery, the decisions of version resolution, npm
  project discovery and the `packageManager` field, the OSV query plan and the
  joining of its answers, the JSON records, the table layout and the exit
  codes. Verus verifies every function there; the public ones carry
  contracts that state what they return, and the laws that relate several
  functions are public proof functions (`lemma_*`).
- `app/` is the program around it: the command line, the file system, the
  package managers, the HTTP requests and the terminal output.
- `tests/` runs the library on concrete values.

Calls into `quick_xml`, `serde_json` and the `std` functions that have no
specification in `vstd` go through small trusted wrappers in `src/xml.rs`,
`src/package_json.rs`, `src/text.rs` and `src/paths.rs`; their contracts are the
only statements not proved.
