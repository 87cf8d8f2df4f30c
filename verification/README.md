# truetop

A per-process Linux monitor built on eBPF: CPU, memory, and how long each process
sat blocked on storage.

`src/` is the logic, verified with Verus: what the kernel-space programs decide on
each scheduler event, how a kernel's BTF is read, how counters become shares, which
rows are worth looking up, and what every key does and every frame shows. It reads no
map or file itself, and of the terminal it asks one thing only, the colour of its
background (`src/ui/theme/detect.rs`). `src/lib.rs` lists the modules.

`app/` is the binary around it: it loads the programs, drains the maps, reads `/proc`
and draws on the terminal, and hands the library what it read.

Shares are double-precision numbers (`src/percent.rs`). The verifier has no
floating-point arithmetic to prove things with, so `src/double.rs` does it over
integers: every number is a mantissa and an exponent, and every operation rounds to the
nearest double, to the even one of two that are as near. The tests hold it to the
machine's own `f64`, digit for digit.

Each module closes with its laws: public proof functions that state what holds across
calls, such as that a context switch neither makes nor loses time
(`kernel::sched::a_switch_moves_no_time`) or that a process that ends between two reads
is charged once more and then gone (`backend::the_departed_are_charged_then_gone`).

What the library takes from outside on trust is declared where it is used: a handful of
`String` methods (`src/text.rs`), UTF-8 decoding (`src/btf.rs`,
`src/metrics/identity.rs`), lowercasing (`src/ui/table.rs`), the machine's byte order
(`src/common.rs`), error chains (`src/privilege.rs`), the layout solver
(`src/ui/layout.rs`) and the terminal's background (`src/ui/theme/detect.rs`).
