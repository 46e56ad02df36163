# backend

A campground search service. The verified library (`src/`) holds its logic;
`app/` holds the HTTP server, the database loader and the embedding model.

- `html`: reduces an HTML description to plain text. Tags `<[^>]+>` and
  entities `&(?:[a-zA-Z]+|#\d+);` become spaces (entities are not decoded),
  the ends are trimmed and whitespace runs become single spaces. The
  contract states the result exactly.
- `html_laws`: proofs that the plain text holds no tag and no entity, has
  normalised whitespace, and is left unchanged by a second cleaning.
- `facility`: the facility shapes, the response entry of a listed facility,
  and the stored record of a seed facility with its embedding text.
- `paging`: the walk through the RIDB campground listing: the URL of each
  page, and when the listing is complete.
- `search`: the search text check and the SQL query of the search endpoint,
  as SQL pieces and bound values.
- `api`: the errors of the service with their HTTP status and message.
- `text`: string and character helpers, and the character classes.

`app/main.rs` runs the server, or with the argument `seed` loads the
facilities table from a RIDB export (`SEED_DATA_PATH`). The embedding model
is loaded through ONNX Runtime at run time (`ORT_DYLIB_PATH`), with
`MODEL_PATH` and `TOKENIZER_PATH` naming the model and tokenizer files.
