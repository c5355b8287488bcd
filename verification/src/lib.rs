//! The verified core of a production-cluster test harness.
//!
//! Every acceptance gate of the harness collects evidence from a running
//! cluster and decides, from that evidence alone, whether the run passed.
//! This crate holds the decisions: the rules each gate enforces, the bounded
//! diagnostic windows and their redaction scan, the parsers of the formats
//! the harness exchanges with its children, and the state machines behind the
//! gates' retry and settling loops.

use vstd::prelude::*;

pub mod acp_cases;
pub mod acp_cluster;
pub mod acp_load;
pub mod acp_real_path;
pub mod acp_wire;
pub mod admission;
pub mod admission_diagnostics;
pub mod admission_matrix;
pub mod c10;
pub mod c10_path;
pub mod c11_bundle;
pub mod c11_diagnostics;
pub mod c11_matrix;
pub mod c11_window;
pub mod capture;
pub mod capture_directory;
pub mod cluster_cases;
pub mod error;
pub mod fields;
pub mod freeze;
pub mod gate_steps;
pub mod genuine_rekey;
pub mod held_stream;
pub mod json;
pub mod ordered;
pub mod owner_keys;
pub mod peer_fault_table;
pub mod peer_faults;
pub mod real_path_cases;
pub mod rpc;
pub mod rules;
pub mod scan_failure;
pub mod stable;
pub mod std_text;
pub mod text;

verus! {

} // verus!
