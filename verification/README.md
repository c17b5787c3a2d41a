# workspaced

A daemon that keeps workspaces on the desktops of Hyprland: it raises a workspace with its applications,
puts each window where the workspace describes it, follows what the user changes, and writes the bindings of
the compositor from one configuration file.

- `src/` is the library: the configuration and its faults, the chains of keys and the script of bindings,
  the rules of placement and membership, the order of a raise, the plan of a restored session, and the
  writing of a workspace back into the file. Every function is verified; calls into `regex`, `indexmap`,
  `toml_edit`, `serde_json` and a few functions of std stand behind wrappers whose doc comments say what is
  taken on trust.
- `tests/` runs the library on concrete values.
- `app/` is the program around it: the command line, the sockets, the files, the processes and the threads. It
  hands the library plain values and dispatches what comes back.

What holds of the library as a whole is stated in the proof functions named `law_*`, next to the functions
they speak of.
