# windows-volume-guard

A small resident tool that lowers newly created Windows audio sessions when
they start at 100%, down to a configured target (30% by default). It never
raises a session.

- `src/` is the library, verified with Verus: the volume decision
  (`policy`), the settings and the command to carry out (`cli`), the
  arguments, launcher script and reports of the installer (`startup`), and
  the registry of watched audio outputs (`endpoints`).
- `app/` is the program: command-line parsing, the Core Audio, registry and
  file system calls, and printing.
- `tests/` runs the library on concrete values.

Session levels are passed to the library as the bit patterns of their
binary32 values (`f32::to_bits`), which keeps the decision on integers.
