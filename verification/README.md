# bedrock_vm

The host half of the shared-buffer channels between a VM guest and its host,
written and verified in Verus.

A guest registers byte buffers with the hypervisor, and the host reads and
writes their pages while the guest is stopped at a hypercall. Two channels run
over such buffers: `fuzz_input` hands testcases to a fuzzing harness in the
guest and reads its reports back, and `file_store` takes files from the guest
chunk by chunk. `feedback` decides what to ask of the VM to get at a channel's
buffer. `exit_trace`, `replay`, `bench`, `generator` and `corpus` hold the rules
of the campaigns that are run over the fuzz-input channel.

- `src/` is the verified library. It performs no I/O: replies of the VM and of
  the file system come in as plain values, and requests go out as plain values.
- `app/` carries those requests out: the calls of a VM, the host's files, and
  the loops over forks of a checkpoint.
- `tests/` runs the library on concrete values.

Host paths are Unix paths and are handled as bytes. The one thing taken on
trust is what `String::from_utf8_lossy` returns; see `src/text.rs`.
