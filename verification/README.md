# solvency

The logic of a self-hosted personal-finance application, written in Verus
and verified: money formatting, detection of recurring expenses, date ranges
and presets, categorization rules, the analytics behind the spending tree,
the income/expense flow diagram and the monthly bar chart, import and export
of categories, tags, rules and accounts, and the smaller rules the web layer
applies to forms, filters and query strings.

Every public function states what it returns in its `ensures` clause, over
spec functions on sequences, maps and integers; laws that relate several
calls are public proof functions (`lemma_*`).

Layout:

- `src/` the verified library, one module per concern (`recurring_expenses`,
  `date_utils`, `category_tree`, `sankey`, `category_months`, `rules`,
  `manage`, ...). Calls into `chrono`, `regex`, `urlencoding` and `argon2` sit behind
  small trusted wrappers whose contracts name what those crates return.
- `tests/` tests of the library on concrete values.
- `app/` a thin command-line front: reads the configuration from the
  environment and prints the analytics of an exported transaction list as
  JSON.
