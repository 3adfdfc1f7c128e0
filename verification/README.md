# batch-artifact-export

Export many local files through external converters (Pandoc, draw.io, Inkscape, …) with
one TOML manifest and one command, and get one JSON report of the whole run.

The rules of the tool live in a library verified with Verus:

- `src/validate.rs` — every check a manifest must pass, with the exact error list it yields;
- `src/naming.rs` — portable output names (`normalize_stem`, `output_name`);
- `src/paths.rs` — paths read the way `std::path::Path` reads them on Unix;
- `src/plan.rs` — sandbox choice, worker count, prepared jobs, converter arguments;
- `src/execute.rs` — the steps of one job and what its report says when a step fails;
- `src/report.rs` — the run report and the exit status it calls for;
- `src/digest.rs` — SHA-256 digests (through the `sha2` crate) in hexadecimal;
- `src/cli.rs` — the `--jobs` value;
- `src/text.rs`, `src/manifest.rs` — character helpers and the manifest types.

`app/` is the command line around it: it reads the manifest with `toml`, inspects sources,
starts converters (optionally under Bubblewrap) in worker threads, and writes the report
with `serde_json`, asking the library at every decision.

Exit codes: 0 every artifact succeeded; 1 a conversion failed; 2 the manifest, an input
or the command line was invalid; 3 a required sandbox was unavailable.
