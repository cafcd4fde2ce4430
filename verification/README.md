# lst

Personal lists and notes kept as Markdown files, with an optional sync
daemon, a mobile and desktop front end and a small sync server.

`src/` is the library, written in Verus: every function carries a contract
and is proved against it.

- `text`, `lines`, `paths`, `sorted`: strings, lines, paths and sorted name lists.
- `list`, `markdown`, `edit`, `list_ops`: the list model, its Markdown form
  (read and written back unchanged), and the operations on items and categories.
- `notes`, `storage`, `resolve`, `commands`: notes, files of the content
  directory, and how a typed name finds a list or note.
- `theme`: Base16/Base24 themes, inheritance, overrides and CSS variables.
- `config`, `server_config`, `cli`, `frontends`: settings and the data of the
  command line tool and the apps.
- `crypto`: encryption, keys and password hashing.
- `sync`, `syncd`, `status`, `server`: document identity, the sync daemon's
  decisions, sync status and the login flow.

`app/` is the command line tool around the library: argument parsing, files,
the terminal and processes. `tests/` runs the library on concrete values.
