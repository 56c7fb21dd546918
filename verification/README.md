# kata_parts

Verified pieces of the Kata Containers runtime and of its deployment tool,
written in Verus.

- `src/` is the library, every function verified against its contract:
  guest kernel command line assembly (`kernel_params`, `verity`, `guest_cmdline`,
  `cmdline_tokens`),
  CDI device handling (`cdi_spec`, `pod_resources`, `kubelet_client`),
  volume classification (`volume`), the kernel whisperer's decisions
  (`whisperer`, `layout`), and kata-deploy's RuntimeClass bookkeeping
  (`runtime_manifest`, `cmdline_annotation`, `runtime_classes`). Small
  helpers (`text`, `order`, `sorted`, `dedup`, `paths`, `string_map`) carry
  the string, ordering and map reasoning the rest builds on.
- `tests/` runs the library on concrete values.
- `app/` is the I/O around it: gRPC clients, file system walks, process
  runs, OCI spec and JSON conversions.

The library calls `flate2`, `base64` and parts of `std` (paths, hash maps)
through a few trusted wrappers, each documented with what it claims.

Three traits in `app/` stand for services this crate does not provide, and
nothing here implements them: `ConfigLoader` (loading a hypervisor
configuration file), `ComponentExtractor` (unpacking an installation's
components) and `RuntimeClassApi` (the Kubernetes RuntimeClass API). An
implementation is expected from the program that embeds `app/`.

The library's `RuntimeClass` holds only what kata-deploy reads: the name,
the annotations and the pod overhead. It has no handler, scheduling or other
metadata, so an implementation of `RuntimeClassApi::update_runtimeclass`
must merge what it is given into the stored object rather than replace it.
