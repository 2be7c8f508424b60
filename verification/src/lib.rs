//! Host half of the shared-buffer channels between a VM guest and its host.
//!
//! A guest registers byte buffers with the VM it runs in, and the host exchanges
//! data with it through their pages. This crate is the single host-side
//! definition of what stands in those buffers and of what the host does with it:
//!
//! - [`fuzz_input`] hands testcases to a fuzzing harness in the guest and reads
//!   its reports back.
//! - [`file_store`] takes files from the guest, chunk by chunk.
//! - [`feedback`] finds the buffer of a channel before each operation.
//! - [`frame`], [`word`], [`text`] and [`error`] are what these are made of.
//!
//! On top of the fuzz-input channel:
//!
//! - [`exit_trace`] and [`replay`] judge whether replays of one testcase are
//!   bit-identical.
//! - [`bench`](mod@bench) makes and scores the testcases of a throughput
//!   measurement, with the bytes of [`generator`].
//! - [`corpus`] orders a corpus of testcases, and counts what became of it and
//!   what it covered.
//!
//! Nothing here performs I/O. The VM, the files and the clock belong to the
//! caller, who hands their replies in as plain values.

pub mod bench;
pub mod corpus;
pub mod error;
pub mod exit_trace;
pub mod feedback;
pub mod file_store;
pub mod frame;
pub mod fuzz_input;
pub mod generator;
pub mod replay;
pub mod text;
pub mod word;
