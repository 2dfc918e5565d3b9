# zilang

The Zilang toolchain: a compiler for the Zilang language that turns a program
into NASM assembly for Linux (`zipiler`, which then calls `nasm` and `ld`), the
pieces of a second compiler (tokenizer, memory of variables and blocks, and
the tools that emit the assembly of each construct), and Iris, a toy database
shell that stores its tables in text files.

- `src/` is the library, verified with Verus: the operator tables and postfix
  conversion, the assembly tracker and its registers, the first compiler (its
  tables, the cutting of its expressions, and in `compile.rs` the reading of a
  program instruction by instruction with its blocks, loops, conditions,
  functions and imports), the tokenizer of the second compiler and its tools,
  and, for Iris, the reading of requests, the evaluation stack of conditions,
  the composing of the stored lines and the state machine of the console.
- `app/` holds what reads and writes: the command lines, the assembly files
  and the imported files, the files of the base, the window of the console,
  and the comparison of two values of a condition, read as floating-point
  numbers.
- `tests/` runs the library on concrete values.
