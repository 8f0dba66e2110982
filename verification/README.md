# alilu_os

The logic of a small x86_64 hobby kernel, written in Verus and proved
against its contracts: the VGA text console, keyboard decoding, the
interrupt descriptor layout, the scheduler and process accounting, the
heap allocator's block lists, the block device with its allocation
bitmap, the single-leaf B+ tree index, the virtual address table that
stores file contents, the filesystem and its consistency invariant, the
shell, the games, the system-call gate and the toy network stack with
its HTML renderer and browser history.

Layout:

- `src/` the verified library. `ring0`, `ring1` and `ring2` group the
  subsystems by privilege level and re-export the modules they use.
  Laws that relate several operations are public proof functions, next
  to the operations they speak of (`consistency.rs` holds the filesystem
  invariant and its preservation).
- `tests/` executable tests of the library.
- `app/` the machine around it: port and memory-mapped I/O, descriptor
  tables, interrupt handlers, the heap registration and the event loops
  that feed keys to the verified state machines.
