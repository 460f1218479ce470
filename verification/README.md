# dbx-docs

Schema documentation for database connections: canonical keys that match
hand-written notes to tables and columns, DBML rendering of documented
tables, the decisions of a metadata collection run, and a standalone HTML
export.

- `src/` is the verified library. `text` holds the character-level
  operations every renderer is built from; `keys`, `dbml`, `collector`,
  `export` and `request` hold the documentation logic with its contracts
  and laws; `model`, `annotations` and `name_map` hold the data.
- `app/` holds what does I/O: JSON forms of the library's types, the
  concurrent metadata collection, the HTML export's serialization and the
  web route.
- `tests/` exercises the library on concrete values.
