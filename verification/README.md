# virt_lint

The verified core of a linter for libvirt domains. Validators inspect a
domain's XML together with the host's capabilities and record warnings.

- `src/` (Verus): the built-in checks (NUMA fit, free NUMA memory, emulator
  availability, free PCIe root ports), the selection of validators by tag,
  the tags of validator scripts derived from where they lie, the override
  of scripts by earlier directories, number parsing, and the warning log.
  XML parsing and XPath evaluation go through libxml2 (`src/xml.rs`).
- `app/` (plain Rust): reading the validator directories, running Lua
  (mlua) and Python (PyO3) validator scripts, and the host interface
  (`HostContext`) that supplies capabilities and free memory, with an
  offline host built from XML documents handed in. Python scripts are
  found as `check_*.py`.
- `tests/`: tests of the library.
