# numancy

Numerology arithmetic (Pythagorean and Brazilian cabalistic) as a Verus
library: every function states what it computes in its contract, over spec
functions of the letter tables, digit sums and reductions, and Verus proves it.

- `src/` — the verified library: letter decoding (`alphabet`), reductions and
  karmic debts (`reduction`), name analysis (`name`), the two systems
  (`pythagorean`, `cabalistic`), dates and the calendar (`date`), cycles,
  the life triangle (`pyramid`), addresses, full charts (`chart`) and single
  queries with date reading (`query`). Laws that span functions are public
  proof functions named `law_*`.
- `tests/` — scenario tests on concrete values.
- `app/` — the command-line tool: argument parsing, the clock and JSON output.
