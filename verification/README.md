# AS2Expert Desktop

A desktop client for AS2Expert — read, organize, send and receive AS2/EDI
messages, like an email client for B2B messaging — whose core is verified with
Verus.

## Layout

- `src/` — the verified library. The client is modelled as plain data
  (`state::AppState`) and transitions on it: each user action and each API
  reply is a function with a contract that says how the state changes and
  which requests (`model::Request`) go out next.
  - `json`: JSON records as the API delivers them, and the field readers.
  - `config`: connection settings, the settings document, the config path.
  - `messages`, `order`: the message grid's search and stable sort.
  - `folders`: the folder tree (listed or derived from the messages) and its
    depth-first display order.
  - `state`, `session`, `events`, `forms`, `maint`: the transitions of the
    mail view, the reply handling, the create/edit forms and the maintenance
    modules.
  - `text`, `chars`: text shaping (keys, dates, truncation, file names).
  - `laws`: properties across operations (sorting, search, folder tree,
    settings round trip, text shaping).
- `tests/` — tests of the library on concrete values.
- `app/` — the egui window: drawing, the API client on a background runtime,
  file dialogs and the settings file. It calls the library for every decision.

The API client crate (`as2expert`) is used only by `app/`.
