# crabase

Query Obsidian `.base` files against a vault of markdown notes, from the
command line, with the query logic verified by Verus.

A `.base` file names filters, formulas and views. Running a view scans the
vault into a table (one row per note: file facts, tags, links, backlinks,
natural sort keys, and one typed column per frontmatter key), compiles the
filters and formulas of the expression language into column plans, sorts,
limits and selects, and writes the result as CSV.

## Layout

- `src/` — the verified library.
  - `yaml.rs`: the YAML value model and its accessors.
  - `base_file.rs`: decoding a `.base` document into filters, formulas,
    properties and views.
  - `expr/`: the expression language — `lexer`, `parser` (byte spans,
    structured errors), `ast`, `plan` (column plans: what an expression
    compiles to) and `translate` (expressions to plans, with formulas and
    their cycles).
  - `filter.rs`, `query.rs`: filter trees to one predicate; a view to the
    full query plan (predicate, sort keys with tie-breakers, limit, columns).
  - `vault.rs`: reading notes — code regions, wikilinks, tags, frontmatter
    blocks, link resolution and backlinks, sort keys, column types.
  - `table.rs`: the vault table and its schema.
  - `output.rs`: headers, CSV fields, cell text, the CSV text and the rows
    that the TOON writer encodes.
  - `cli.rs`: the command line's arguments.
  - `sort_order.rs`: why sort keys order numbers by value.
  - `dates.rs`, `text.rs`: calendar values through chrono, text helpers.
- `app/` — the program: reading files, the dataframe engine (plans are
  lowered to engine expressions node for node), printing.
- `tests/` — tests of the library.
