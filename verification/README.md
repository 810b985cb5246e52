# types_of_ants

The deployment tooling of typesofants.org, with its logic verified by Verus.

`src/` is the library. Its main parts:

- `pipeline_engine/`: the engine that runs a revision's deployment as a DAG of nodes: sealing,
  ticking (release of stale jobs, promotion, unwinding, claims in FIFO order per resource),
  job outcomes, cancellation and retries, all stated over a mathematical model of the engine
  (`model.rs`, `scope.rs`), with the properties every operation keeps in `laws.rs`.
- `dag.rs`: the DAG built for a project (per environment, hosts in waves of 1, 2, then 4).
- `resource_key.rs`: resource keys, their text form and its parser.
- `events.rs`, `deployment_event.rs`: the events of a deployment, their successors, the JSON
  form of each step and what a worker does for it.
- `pipeline_def.rs`, `pipeline_view.rs`, `progress.rs`, `project_view.rs`: pipeline definitions
  and how pipelines, revisions and projects are shown.
- `service_api.rs`, `deployment_api.rs`, `headers.rs`, `errors.rs`: the decisions of the service's
  endpoints.
- `env_vars.rs`, `units.rs`, `artifacts.rs`, `printing.rs`, `tweets.rs`, `releasing.rs`: the
  environment of a service, unit files and file names, artifact builds, the printing press, the
  tweeting bot and the release of suggested ants.

`app/` is a command-line front end that reads files and standard input, calls the library and
prints its answers. `tests/` exercises the library on concrete values.
