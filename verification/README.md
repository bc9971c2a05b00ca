# fpu_calc

The logic of a graphing calculator that runs on an STM32F446 and drives a
128x64 display over SPI, written in Verus and proved against its contracts.

- `src/parser`: the tokenizer and the shift-reduce parser of expressions,
  with laws on what they keep and how they group operators; `grammar.rs`
  states the grammar by recursive descent and proves that the parser builds
  exactly what it reads, and fails exactly where it does not.
- `src/gui`: the screens (scientific, error, constants, equation, graph):
  what each key does to the calculator's state, and the exact sequence of
  display instructions and data bytes that each screen draws.
- `src/program.rs`: the simpler scientific mode of the firmware's main loop.
- `src/keymaps.rs`, `src/util.rs`, `src/lazylock.rs`, `src/text.rs`: key
  texts, number formatting, a lazily computed value, string edits.
- `app/`: the firmware itself (peripherals, SPI, the main loop) and the
  floating-point evaluation, which the verified library leaves to it.
- `tests/`: tests of the library on concrete values.
