# rstrf

Tools for satellite radio observations with spectrograms in the strf `.bin` format.

- `src/` is the library, verified with Verus: the strf header grammar and writer (and the proof
  that a written header reads back), the frequency and TLE catalog parsers, the mipmap layout and
  the CPU mipmap builder, the plot's mouse and keyboard modes and its marks, the async result
  cache and the prediction status, the pane layout plan, the pass-image batch mode, and the
  satellite manager's form and table logic.
- `tests/` exercises the library on concrete values.
- `app/` is a small command-line front end: `info`, `convert`, `mipmap`, `catalog` and `tles`
  read and write files and hand plain values to the library.
