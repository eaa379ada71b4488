# otap_tools

Tools around an Arrow telemetry pipeline, written in Rust and proved with Verus.

* **Dictionary unification.** Four strategies give the dictionary columns of several Arrow record
  batches one dictionary per column, so that the batches can be written to one Arrow file: joining
  the dictionaries, taking the distinct values, taking them only where the keys do not suffice, and
  taking them where the dictionaries are short on average. `unification.rs` says what a
  unification is, `unify.rs` performs it, and `laws.rs` states what holds of every one of them:
  values, rows and fields stay, and all batches share one dictionary per column.
* **Workloads.** `workload.rs` and the `otap_*.rs` modules build the batches that the strategies
  are measured on, and `repeatable.rs` states that what is drawn at random determines them;
  `report.rs` and `analysis.rs` evaluate and compare the strategies.
* **A chaos exporter.** `chaos.rs` and `chaos_session.rs` hold the decisions of an exporter that
  acknowledges, refuses and delays messages as a control file tells it to. `rate.rs` compares
  failure rates exactly.

`src/` is the verified library. The calls into the Arrow crates and into `rand` stand in
`arrow.rs`, `building.rs`, `encoding.rs`, `ipc.rs`, `draws.rs`, `text.rs` and `chaos.rs`, each with
the contract that the proofs rest on. `app/` holds what is not verified: timing and printing, reading files, and
the loop of the exporter. `tests/` runs the library.
