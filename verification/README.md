# kontrol

A command-line client (`kc`) for the KUMA REST API.

- `src/` is the library, verified with Verus: settings (`config`), addresses,
  authentication and answers of the REST client (`http`), pagination
  (`api`), asset listing and import requests (`assets`), service and tenant
  listings (`services`, `tenants`), the command line (`cli`), and the JSON
  model (`json`, which parses text with serde_json behind one trusted
  wrapper) and text operations (`text`) they are stated over.
- `app/` is the program: it reads the arguments, the terminal and the
  settings file, makes the HTTP requests with reqwest, serialises the request
  bodies with serde_json, and prints.
- `tests/` runs the library on concrete values.
