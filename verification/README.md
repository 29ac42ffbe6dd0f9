# Settupper

A declarative package manager with a terminal interface: it reads a YAML or
JSON file listing the programs you want, checks which are installed, and runs
their install, update or uninstall commands for the distro at hand.

The library under `src/` holds the logic, verified with Verus:

- `config`, `yaml`: reading apps from the configuration's document model.
- `manager`: distro keys, command selection, reboot flags, statuses, and the
  depth-first dependency order in which apps are handled.
- `status`: finding an app's status from the outcomes of its check commands.
- `exec`: running plans step by step, one command outcome at a time.
- `app`, `selection`, `events`: the interface state, the selection, and what
  keys and background reports do to it.
- `ui`: what the screens show (labels, lines, table rows, details, log).
- `terminal`: the script, terminal choice and result file of runs in an
  external terminal.
- `system`: the distro from `/etc/os-release`, and escape-free command output.
- `text`, `strmap`: strings, numbers, lines and a string-keyed map.

The program under `app/` reads files, runs commands, spawns the background
work and draws the screens with ratatui, calling the library for its
decisions.
