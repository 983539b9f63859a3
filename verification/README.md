# explorator

A recon orchestration framework. Pipelines are written in TOML; their stages run
plugins that look for subdomains, addresses, open ports, certificates, pages and
vulnerabilities; everything they find is merged into one graph of entities.

- `src/` is the verified library: entities and their graph, pipelines and their
  order, the state machine that runs them, the wire formats of DNS and of X.509
  certificates, and for each plugin what it asks for and what the answers say.
- `app/` is the program around it: the command line tool, the API server, and
  the network and process I/O of the plugins.
- `tests/` are the tests of the library.

A run of a pipeline works by steps. `ExecutionEngine::prepare` tests a pipeline,
`Execution::next` says which stage to start or to wait, and
`Execution::complete` takes the result of a stage. `StageRun` counts the attempts
of one stage and says when it is done, and `gather` joins what a plugin finds
call by call. What holds of single steps is proved in `src/engine.rs`; that a run
never gets stuck, that it ends, and that no result is lost are proved in
`src/runs.rs`.
