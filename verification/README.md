# devtoolbox

The verified core of DevToolBox, a launcher of custom commands and scripts:
the rules behind its cards, terminal, Docker port views, model library,
updater and uninstaller, each stated as a contract and proved with Verus.
The launcher's window itself is not part of this crate.

- `src/` is the library. Every function there is verified; the few calls into
  outside crates (signature checks, hashing, semantic versions, URL and JSON
  parsing) go through small trusted wrappers whose contracts say what those
  crates document.
- `tests/` exercises the library with the outside crates linked.
- `app/` holds what the library does not do itself: spawning processes, the
  file system, the network, the updater's threads and installers, the serde
  forms of the library's types, and the floating-point colour contrast.

Main modules: `launcher_cards` (cards, variant groups, preference rows, the
action form), `user_scripts` (importing scripts as actions), `terminal_view`
and `process` (command lines and `@python` actions), `ports` and `port_plan`
(published ports, conflicts and reassignment plans), `xaml_gen` (grid
layout), `models_view`, `model_commands` and `model_events` (model catalog, tool
command lines, and how the workspace takes in the tool's reports),
`docker_confirm`, `docker_dispatch` and `pending_actions` (the Docker
view's selection, report and deferred reads, the wording of Docker
confirmations, what a confirmed action starts or is refused, and the
status once it has run), `native_window` (window material policy), `update` (keys, manifest
and service), `registry` and `uninstall`.
