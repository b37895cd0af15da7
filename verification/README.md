# n2t

Tools for the Nand2Tetris platform, verified with Verus:

- `assembler`: Hack assembly to 16-bit machine words. Parsing, symbol resolution and
  encoding have exact contracts; `assemble_source` takes a whole source text.
  `assembler::machine` models the Hack computer: what straight-line code does to registers
  and memory, and that the words the assembler emits do the same on the ALU.
- `jack::translate`: the VM translator. Each command becomes Hack assembly; the laws in
  `arithmetic`, `stack`, `common`, `prelude` and the module itself prove what the emitted
  code does to the stack and memory.
- `model`: the HDL simulator. `model::parser` reads pin and part descriptions,
  `model::chip::builder` wires registered chips into new ones, and `model::chip::native`
  simulates them by delivering bits between parts; `model::chip::state` states the chip
  state and the simulation step as plain values.
- `channel_range`, `clock_behavior`, `cli`, `text`: small shared pieces.

Bit vectors are held in `bitvec`'s `BitVec` (`model::chip::bits`); every call into it goes
through a trusted wrapper with a stated contract.

`app/` holds the command line program (argument parsing and file I/O); `tests/` runs the
library with the real outside crates.
