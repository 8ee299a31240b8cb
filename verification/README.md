# yard_core

The verified core of `yard`, a command-line tool that plans and deploys data
jobs (AWS Glue, EMR and Bash tasks) and generates the Airflow DAGs that
schedule them. The functions under `src/` are checked by Verus against their
`requires`/`ensures` contracts, with three exceptions that are trusted, not
proved: `json_quote` (serde_json's string quoting), `push_char`
(`String::push`) and the YAML parser call in `src/yaml.rs` (`parse_yaml`
with its node conversion `node_of`). Their contracts are stated in their
doc comments.

## Layout

- `src/text.rs`, `src/json.rs` — strings, identifiers, a JSON value type with
  sorted objects, deep merge and structural comparison.
- `src/yaml.rs` — the YAML context files: parsing, their JSON value, and the
  errors for empty or missing files.
- `src/arn.rs`, `src/connections.rs` — IAM role ARNs, the Airflow connection
  each task uses, and the connections a DAG needs.
- `src/diff.rs`, `src/plan.rs`, `src/dagplan.rs`, `src/report.rs` — what
  changes between the desired and the deployed state, and how plans and
  results are reported.
- `src/flow.rs` — the confirmation and dry-run steps of `apply` and
  `destroy`, and the per-job progress of a destroy.
- `src/dag.rs`, `src/topo.rs`, `src/collect.rs` — finding DAG directories,
  resolving `depends_on`, ordering tasks and detecting cycles.
- `src/triggers.rs`, `src/dagfile.rs`, `src/version.rs` — the trigger block,
  tasks, edges, imports and headers of a generated DAG file, for Airflow 2
  or Airflow 3.
- `src/codegen.rs`, `src/render.rs`, `src/transform.rs`, `src/script.rs` —
  the PySpark script of a Glue or EMR job: sources, transforms, PII masking
  and sink.
- `src/apply.rs`, `src/targets.rs`, `src/cli.rs` — deployment decisions, the
  `list targets` view and command-line options and colors.
- `tests/` — executable tests of the library.
- `app/` — a thin `yard` binary: argument parsing, reading files and
  prompting. It implements `init`, locating a project with its account and
  region context, and the confirmation flow of `destroy <job>`; the commands
  that need the job definitions (`plan`, `apply`, `show`, `validate`,
  `list`, destroying) stop with an error, since the project loader that
  reads job definitions is not part of this crate.
