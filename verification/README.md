# arrs

A command-line tool for inspecting Arrow-based datasets, with its logic verified by
Verus. It reads Lance datasets; the core knows nothing of the format.

## Layout

- `src/` is the library: everything that is decided or computed. Each function has a
  contract, and Verus proves it.
  - `cli`, `commands` – what a command line asks for, and what each command computes
  - `projection`, `wildcard`, `row_id`, `indices` – which columns and rows are meant
  - `schema`, `cell`, `dataset`, `listing` – the model of schemas, values and listings
  - `output` – CSV, JSON, JSON lines and tables, and the text of every value
  - `stats` – per-column summaries
  - `lance` – moments, checkouts, references and messages of Lance datasets
  - `binary64`, `json`, `sort`, `text`, `error` – what the others share
- `app/` is the program around it: arguments, files, streams, the Lance reader, Arrow
  streams, floating-point text and moments.
- `tests/` runs the library on concrete values.

Properties that span several functions are the public proof functions named `law_…`.

## What is trusted

The library calls chrono, csv, comfy-table, base64, serde_json, rand and rand_chacha
through small functions marked `external_body`. The comment above each says what is
believed of the call. Where a result has no short description it has a name, such as
`utc_form` for the text of an instant, and the contracts speak of that name.
