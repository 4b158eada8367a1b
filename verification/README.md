# pd5diff

Compares a processor's five-stage pipeline trace with a golden trace, line by
line, and reports only the differences that matter: a field of a trace line is
compared only where the instruction that the golden pipeline holds in the
matching stage uses it. Everything else is a "don't care" value.

Layout of the library (`src/`), all of it verified:

- `instruction` — RV32I instruction words: field extraction, encoding formats,
  immediates, and the instruction classes the comparison distinguishes.
- `disasm` — assembly text of instruction words (`addi x3, x0, 10`).
- `pipeline` — the golden pipeline (fetch, decode, execute, memory, writeback)
  and its clock.
- `text` — words of a line, hexadecimal reading and writing.
- `trace` — trace lines (`[F]`, `[D]`, `[R]`, `[E]`, `[M]`, `[W]`): reading
  and writing them, with the law that writing then reading gives the line back,
  and reading a whole trace file's text.
- `compare` — the checks of a line pair, the search for the first line where
  the golden trace disagrees with the decoder, and the comparison of whole
  traces that agree with it.
- `laws` — properties over whole traces: every reported mismatch is a real
  difference in a field that matters, every such difference is reported on a
  line with no golden fault, a trace compared with itself has no mismatch, and
  the golden pipeline depends on the golden trace alone.

`app/main.rs` is the command-line program: it reads the two trace files, runs
the comparison and prints a report for every line with an error.
