# plaza_os

Guest OS builder and management for PlazaVM guests, written in Verus.

- `src/` is the verified library: the rootfs builder and its build steps, the
  OS configuration and the text it renders (`resolv.conf`, `sysctl.conf`, the
  kernel command line), the secure boot chain, the over-the-air update state
  machine and the snapshot store with its lineage. Each public function states
  its result in its contract; the laws that relate several calls are public
  proof functions beside them.
- `tests/` exercises the library on concrete values.
- `app/` holds what Verus does not take: the snapshot store shared between
  async tasks behind a `tokio` lock, and serde-serialisable copies of the data
  types with conversions both ways.
