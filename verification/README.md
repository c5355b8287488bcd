# tunnel_test_harness

The decisions of a production-cluster test harness, verified with Verus.

The harness runs a cluster of relays, drives it through acceptance gates and
collects evidence. Whether a run passed is decided from that evidence alone,
and so is every retry, every settling wait and every diagnostic that leaves
the process. Those decisions are in `src/`. Each function there states exactly
what it returns, and the laws that tie several functions together are public
proof functions beside them.

- `c11_window`, `c11_bundle`, `c11_matrix`, `c11_diagnostics`, `fields`,
  `peer_faults`, `peer_fault_table`, `scan_failure`: bounded diagnostic windows,
  the scan that keeps sentinels out of them, and the matrix of runs.
- `capture`, `capture_directory`: the files that an acceptance child leaves.
- `acp_cluster`, `acp_real_path` and their cases (`acp_cases`, `acp_load`,
  `cluster_cases`, `real_path_cases`, `owner_keys`, `genuine_rekey`): the rules
  of the two ACP gates and what each case records.
- `acp_wire`, `held_stream`, `rpc`, `freeze`, `gate_steps`: the wire formats and
  the steps that both gates share.
- `admission`, `admission_matrix`, `admission_diagnostics`: public admission.
- `c10`, `c10_path`: the actual-path gate and the owner-token race.
- `error`, `json`, `ordered`, `rules`, `stable`, `std_text`, `text`: common
  ground.

Outside calls stand behind a few trusted functions in `json`, `std_text` and
`gate_steps`; the comment above each says what is taken on trust.

`app/` runs the gates: connections, processes, files and clocks. It reaches the
cluster through fixture traits and hands plain values to the library.
