# Translation file maintenance, verified

Tools for keeping the language files of a game mod in shape, with the logic
proved correct in Verus.

- `src/text.rs`: characters of strings, white space and trimming, finding
  and replacing text.
- `src/fix.rs`: lays the lines of a translation file out along the blank
  lines of a reference file.
- `src/templates.rs`: combines item, block and container translations of one
  thing into a template translation.
- `src/functionality.rs`: the functionality a translation line belongs to.
- `src/reorder.rs`: groups translations by functionality and orders the
  groups.
- `src/merge.rs`: adds the translations of a reference file that a file lacks.
- `app/main.rs`: the command line program (`fix_lines`, `update_templates`,
  `reorder_translations`, `add_new_translations`) that reads and writes the
  files.
