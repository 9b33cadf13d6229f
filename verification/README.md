# kernel_core

The verified core of a small x86-64 hobby kernel.

- `src/mm.rs`: page-table entries and their flag bits, the free-page list
  (each free page holding the link to the next in its first word),
  physical memory as a set of 512-entry frames, the four-level page-table walk
  (`get_page`, `set_page`) and the cutting of the boot memory map into pages.
- `src/thread.rs`: the table of kernel threads, their ring, context switching
  and the saved registers.
- `src/interrupts.rs`: interrupt-table entries, the `lidt` operand and the
  table of the 32 CPU exceptions.
- `src/gdt.rs`: the global descriptor table, built with the descriptor builder
  of the `x86` crate.
- `src/keyb.rs`: scan-code to ASCII decoding.

`app/` holds what runs on the bare machine: the boot-loader requests, the
privileged instructions (`lgdt`, `lidt`, `mov cr3`), the assembly entry points
of the context switch and the final halt.
