# ritual

Makes spirits: checks a spirit directory (`actions/`, optional `audio/`,
`meta.json`) and packs it into `<name>.spirit`, a zip archive.

- `src/` is the library, verified with Verus: the structure check, the rules
  of `meta.json` and its frame ranges, the spirit's name, the archive's
  entries, and the order of the stages.
- `app/` is the `ritual make <dir>` command: it reads the file system, shows
  progress, writes the archive, and asks the library at each step.
- `tests/` runs the library on concrete values.

## Rules of a spirit directory

- The top level holds only `actions/`, `audio/` (optional) and `meta.json`;
  an entry whose name is not UTF-8 is none of these.
- `meta.json` has a `default` action.
- Frame ranges are indices into an action's sorted frame files, so with `n`
  frames both ends must be below `n`; an action without frames takes none.
- Action names and `<play>.mp3` are paths below `actions/` and `audio/`:
  they may not start with `/` or hold a `..` component.
- The archive is planned from the directory before `<name>.spirit` is
  created, so it never holds itself.
