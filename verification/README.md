# lib

Verified engines written with Verus.

- `src/accounting.rs` — double-entry book keeping: journal entries and their
  balance check, account names, ledgers, the trial balance, and the whole
  pass from a journal to its books. Every sum is proved free of `i32`
  overflow; the `try_*` functions say exactly when a sum would overflow.
- `src/books_laws.rs` — a valid journal of single-line entries (one debit
  and one credit line each) always yields a balanced trial balance, whatever
  the order of the ledgers.
- `src/dates.rs` — `DD-MM-YYYY` dates in words.
- `src/lexer.rs` — a lexer for a small JavaScript subset.
- `src/calculator.rs` — splitting a left-to-right expression into operand
  texts and operators.
- `src/samples.rs` — two sample journals.
- `src/text.rs` — character-level helpers (decimal numerals, unsigned
  integer reading, splitting).
- `src/carrom.rs` — the piece kinds of a carrom board.

`app/` holds the programs around the library: printing and timing, the
floating-point calculator evaluation, and the floating-point carrom engine.
