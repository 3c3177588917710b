# saur

A helper for AUR packages on Arch Linux: search the AUR package list, build and
install AUR packages (`sync`), and upgrade the installed ones in the order that a
configuration file gives (`upgrade`).

## Layout

- `src/` is the library, verified with Verus. It holds the commands' logic: reading
  `sync`'s flags, checking the configuration against the local packages, ordering
  builds so that dependencies come first, sorting fetched repositories and checked
  versions, choosing the packages to upgrade. The work that waits on outside programs
  is written as step functions from what happened last (an event) to what to do
  next (an action: a command to run, a file to read, or the result), each with a
  contract that fixes every step: searching, updating the lists, syncing, fetching a
  repository, checking a version, building a package, and the build-and-install runs
  of `sync` and `upgrade`.
- `app/` is the program around it: it reads the environment, the disk and the local
  package database (through libalpm), runs `git`, `makepkg`, `pacman` and the other
  commands that the library's steps name, reads the TOML configuration, and prints.
  It also strings together the top-level sequence of `upgrade` (check the
  configuration, upgrade the system, fetch, check versions, ask, build and install),
  each of whose decisions is a function of the library.
- `tests/` runs the library on concrete values.
