# RusticSort

A library that decides how the files of a folder are sorted into
sub-folders by their extension, proved with Verus, and the desktop
program around it.

- `src/` — the verified library:
  - `text.rs`: ASCII case-insensitive comparison, decimal notation;
  - `paths.rs`: joining paths and splitting file names as `std::path`
    does on Unix, file names of paths, and the configuration paths;
  - `rules.rs`: sorting rules;
  - `organizer.rs`: which rule sorts a file, the first free name in the
    target folder, what undoing a batch of moves amounts to, the summary
    shown before organizing and the results listed after it, a batch run
    that stops at the first failure;
  - `strings.rs`: the table of application texts, read from TOML;
  - `ui.rs`: the window's state machine — each message gives the next
    state and the outside work to perform.
- `app/` — the program: the iced window, the file-system work (scanning,
  moving, undoing), the configuration file and the string table.
- `tests/` — tests of the library.
