# freax

A small x86-64 Unix-like kernel written as a Verus library.  Every function
in `src/` carries a `requires`/`ensures` contract that Verus proves; the
hardware itself is out of reach, so a device function either returns the
steps the hardware must see (port writes, register writes, waits) or takes
what the hardware reported (a status byte, a sector, a register value).

## Layout

- `src/` — the verified library:
  - memory: `memlayout`, `mmu`, `kalloc`;
  - disk and file system: `fs_layout` (on-disk format), `disk` (block
    bitmap), `buf`, `bio` (buffer cache), `log` (write-ahead log), `fs`
    (block maps, reading and writing inodes), `icache` (inode cache), `dir`
    (directories), `path` (path names), `file` (open files);
  - programs and processes: `exec`, `proc`;
  - devices: `console`, `kbd`, `ide`, `lapic`, `ioapic`, `traps`;
  - start-up: `boot` (boot loader decisions), `acpi` (multiprocessor
    tables), `smp` (starting the other processors), `cpuid`, `mp`, `defs`.
- `tests/` — tests that run the library on concrete values: file-system
  images built in memory, machine tables, keyboard scan codes, and so on.
- `app/` — a command-line front end: `cpuid` reports this machine's
  processor features, `boot KERNEL` plans the loading of a multiboot
  kernel image, `ls FSIMG` and `cat FSIMG PATH` read a file-system image,
  and `echo` runs standard input through the console line discipline.

Laws the library proves beside its contracts include: a read returns what
a write wrote (`fs::lemma_read_after_write`), a lookup finds what a link
added (`dir::lemma_lookup_after_link`), freeing undoes allocating
(`disk::lemma_bfree_undoes_balloc`, `kalloc::lemma_kalloc_after_kfree`),
a commit puts the cached contents of the logged blocks at home
(`log::lemma_commit_keeps_homes`), a commit, and an operation committed
through the log, is all or nothing across a crash
(`log::lemma_commit_all_or_none`, `log::lemma_op_all_or_none`), mapping a
file block twice allocates once (`fs::lemma_bmap_twice`), a write to one
file leaves other files' blocks alone (`fs::lemma_write_spares_others`), a
buffer found busy is handed out once its holder releases it
(`bio::lemma_bget_after_release`), console input never loses a committed line
(`console::lemma_intr_keeps_committed`),
the console reads back a typed line (`console::lemma_typed_line_is_read`),
disk requests are served in order (`ide::lemma_served_in_order`), and a
processor is started only after the one before it reports that it runs
(`smp::lemma_start_after_started`).
