# bugzilla-cli

A thin client for Mozilla's Bugzilla (BMO) REST API, with a verified core.

- `src/` is the library, written in Verus and proved against its contracts:
  - `json.rs`: the JSON values the commands read and write and their model;
    JSON text is read and shown by serde_json behind trusted wrappers.
  - `text.rs`: string helpers (trimming, prefixes, lines, decimal numerals).
  - `client.rs`: the client's key and REST root, request URLs and paths, and
    how a bug's data is put together from the API's answers.
  - `commands.rs`: search and fetch parameters (with the default week),
    request bodies, the text the commands print, the secrets file, setup's
    key step, and the plan of applying a draft.
  - `watchlist.rs`: the needinfo watch list, reply and flag detection, and
    the classification a poll makes of each watched bug, and a whole poll.
- `app/` is the program around it: argument parsing (`clap`), HTTP (`ureq`),
  files, the environment, prompts and the clock.
- `tests/` runs the library on concrete values.
