# expense_plot

A terminal viewer of expense records read from a CSV file (date, amount and,
optionally, class). It plots the expenses of a chosen year, or of a month of
it, either as the sum per day or as a pie by class.

- `src/` is the verified core: calendar dates and months (`date`), grouping
  and filtering expenses by date and class (`processing`), the start-up
  decision on an expense list (`state`), the plots on offer (`plot`), the
  colour palettes (`colours`), the decisions on keyboard input
  (`navigation`) and the sizes of the screen parts (`layout`).
- `app/` is the program around it: argument parsing, reading the CSV file,
  the terminal user interface, and drawing the plots, whose amounts are
  floating-point numbers.
- `tests/` runs the library on concrete values.
