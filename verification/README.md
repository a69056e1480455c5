# shotr_core

The logic of shotr, a screenshot tool, verified with Verus.

`src/` is the library. Verus checks all of it. Its public functions carry
`requires`/`ensures` contracts that Verus proves; the exceptions are the
small wrappers around outside crates described below, whose contracts are
trusted rather than proved. Properties that span several functions are
stated as public `law_…` proof functions beside the code they are about.

| module           | what it decides                                                     |
|------------------|---------------------------------------------------------------------|
| `text`           | character-level string handling shared by every parser              |
| `hotkey`         | hotkey combinations, their canonical spelling, suggestions, bindings |
| `system_hotkeys` | the screenshot shortcuts macOS holds, and physical key codes         |
| `cli`            | reading the command line, and what a launch does                    |
| `daemon`         | each turn of the tray daemon, and the first-run shortcut            |
| `ipc`            | the single-instance wire format and socket names                    |
| `i18n`           | interface strings in English and Vietnamese                         |
| `export`         | file names, formats, flattening onto white, encoding                |
| `history`        | history file names, order, pruning and thumbnails                   |
| `picture`        | RGBA pictures held in `image` buffers                                |
| `capture`        | monitor layout, stitching, cutting and fitting desktop captures     |
| `annotate`       | annotation tools and the undo history                               |
| `caret`, `label` | typing into a label: UTF-8 carets and the input-method editor       |
| `ocr`            | recognised words back in reading order                              |
| `zoom`           | the editor's zoom ladder                                            |
| `shortcuts`      | the editor's keyboard shortcuts and what a frame of them does       |

Calls into the `image` and `global-hotkey` crates go through small
`#[verifier::external_body]` wrappers whose contracts say what those crates
do; where a result takes pages to state (resampling, compositing, encoding)
it is named by an uninterpreted spec function instead.

`app/` is the executable around the library: the command line, the
single-instance socket, the daemon loop, files on disk, hotkey registration
and notifications.

`tests/` exercises the library with the real outside crates linked.
