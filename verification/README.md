# Archive Manager

A desktop application for the artifacts of a museum archive, kept in a Neo4j
graph database. The fields of an artifact come from a schema file.

- `src/` is the library, verified with Verus: the schema and its validation,
  reading and storing artifacts, the Cypher queries and what their replies
  mean, the data files for import and export, and the state of the application.
- `app/` is the program around it: the window, the connection to the database,
  and the files.
- `tests/` holds the tests of the library.

| module | what it holds |
| --- | --- |
| `text`, `fields` | text, decimal numbers, and field values by id |
| `schema`, `units` | the fields of an artifact, values with a unit |
| `bolt` | the values that travel to and from the database |
| `model`, `queries` | artifacts, the queries, and their replies |
| `toml_data`, `datafile` | TOML documents, import and export |
| `pages` | the list and the full listing, page by page |
| `plan` | how an archive is brought in line with its schema |
| `display`, `manager`, `error_propagator` | what is shown, what is done, and what went wrong |

What the library believes of the crates that it calls stands in `bolt` and
`toml_data`, and, for the standard library, in `text`.
