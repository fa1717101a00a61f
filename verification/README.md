# license-check-and-add

Checks that the files of a project carry a license header, adds the header
where it is missing, and removes it again.

- `src/` is the library, verified with Verus. `run` holds a whole run as a
  state machine that asks for files to be read and written and decides what
  follows from them. `config`, `ignore`, `glob`, `paths`, `format`, `license`,
  `decide` and `report` hold the parts of those decisions. `laws` and
  `run_laws` state what holds of them together: that an added license is
  found, that removing it gives back the file, that a run does to each file
  what is decided of it and nothing else.
- `matcher` is all that is taken from `regex` and `globset`; what is believed
  of them stands there. `platform` holds which characters separate the parts
  of a path, which `globset` goes by.
- `app/` is the program: arguments, JSON, and the files on disk.
- `tests/` runs the library on examples.
