# calculator

A small expression calculator whose logic is verified with Verus.

- `src/` is the verified library:
  - `token`: operators, functions, the lexical grammar of a word, the
    tokenizer (words split at Unicode whitespace);
  - `numeral`: how a numeral's number is displayed, as `{}` shows an `f64`;
  - `variables`: a table from variable names to numerals;
  - `expression`: expression trees and how they are written out;
  - `parser`: the shunting-yard parser;
  - `template`: the recursive-descent and shunting-yard evaluator front ends
    (tokenize, validate, parse);
  - `command`: the calculator state, commands, and a processor with undo and
    redo;
  - `mediator`: the mediator that routes calculator events to a display;
  - `config`: configuration values.

  Numbers are carried as numerals (Rust's floating-point syntax); the
  library does everything up to the floating-point arithmetic. The laws of
  the library stand as public proof functions named `law_*`.
- `app/` holds what the verifier does not see: the floating-point
  evaluation of trees, the console display, and the mediator and command
  front ends on `f64`.
- `tests/` exercises the library, with a small floating-point evaluator of
  its own where a test needs numbers.
