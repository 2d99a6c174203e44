# fgbgg

A tool that pastes foreground images onto background images to build image/mask
datasets, and compares generated alpha masks with reference masks.

- `src/` is the verified library (Verus): foreground placement (`position`, `roi`),
  generated file names and how they are read back (`file_name`, `text`), generation
  plans (`generate`), renumbering of source images (`preprocess`), mask pixel counts
  (`mask`) and the pairing of masks for statistics (`statistic`).
- `app/` is the command-line program: argument parsing, reading `task.toml`, file
  system access, and the OpenCV and `image` calls that load, transform and save images.
- `tests/` exercises the library.
