# lean_support

Support for Lean in an editor, verified with Verus: abbreviations such as `\alpha` that expand as
they are typed, and an infoview that shows the goals, the expected type and the diagnostics at the
cursor.

## The library

`src/` decides and computes; it does no I/O.

- `lean_abbreviations` reads the table of abbreviations and expands the tokens at the cursors.
- `segments`, `buffer`, `goals`, `diagnostics` and `payload` make the text of the infoview out of
  the server's replies, with the spans of it that refer to a value.
- `editor` is what the library reads of the editor, `state` what it remembers between commands.
- `lean_infoview` holds the commands. They run in steps: a step lists actions for the editor and
  says what is left to do. `handlers` maps the editor's events to them.
- `rpc` and `refresh` make the requests to the language server and choose among its replies.
- `goto` finds what the cursor stands on in the infoview, and where that leads.
- `json` and `protocol` are the values that are exchanged, `text`, `offsets` and `views` the tools.
- `platform` lists what is taken from `std` and from `url` without proof.

The functions named `law_..` are theorems about the library as a whole: that a cursor on a token of
the infoview finds what the token refers to, that only the last refresh is shown, that every command
comes to its end, and others.

## The rest

`app/` runs the commands against an editor and a language server, behind the traits in
`app/host.rs`. The table of abbreviations is a file with one `(list "input" "replacement")` to a
line, read when the editor starts. `tests/` runs the library on concrete values.
