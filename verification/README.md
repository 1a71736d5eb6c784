# fvm

Flutter Version Manager: lists Flutter releases, downloads and unpacks them,
keeps aliases for installed versions and selects the version that the link
`FVM_PATH/smlink` points to.

- `src/` is the library, verified with Verus: alias file reading and writing,
  release list handling, the decisions of every command, path checks, and the
  text of the progress bar and spinner.
- `app/` is the command-line program around it: arguments, network, file
  system, threads and terminal output.
