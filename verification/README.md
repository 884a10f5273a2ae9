# kernel

A small RISC-V (Sv32) teaching kernel, with its logic verified in Verus.

- `src/` is the verified library:
  - `mem`: a byte-addressed model of physical memory, the bump page allocator,
    with its out-of-memory reports, and two-level Sv32 page-table mapping;
  - `walk`: what the page tables map after `map_page` and after the kernel's
    identity mapping;
  - `proc`: the process table, process creation and the scheduler's `yield_`;
  - `boot`: the boot sequence of the process table;
  - `trap`: trap decisions and the trap handler's print call;
  - `syscall`: the full system-call handler (print, read, exit);
  - `io`, `user`: the SBI console calls and the user-side system calls;
  - `virtio`: the virtio-blk driver: device bring-up, and the queue and request
    that it lays out in memory;
  - `shell`: the user shell's string comparison and line reading;
  - `utils`: alignment helpers.
- `app/` holds what the machine does: SBI and system calls, control and status
  registers, device registers, context switches, the console behind
  `print!`, copying the memory model to and from the machine's memory, and the
  boot and trap entry code.
- `tests/` runs the library on concrete values.
