# Lintel

Lintel is a background macOS utility that gives every window a local menu bar: when a window gains
focus, a floating bar right above it mirrors the menus of its application, and clicking a mirrored
item fires the real one. A global hotkey opens a command palette over the same menus.

This crate has two parts.

- `src/` is the library: the decisions of Lintel, written in Verus and proved against the contracts
  that stand beside it. It performs no I/O. It takes what was read from the screen, the windows and
  the menus as plain values, and returns what is to be done.
- `app/` is the program around it: AppKit, the Accessibility API, Carbon hotkeys, files and `main`.

## The library

| module     | what it decides |
|------------|-----------------|
| `overlay`  | the controller of the bar: ticks, moves, focus changes, menus, settings |
| `geometry` | where the bar goes, when it has to hide, which titles fit |
| `mirror`   | which menus are mirrored, and the rows of the menus that drop |
| `menu`     | menu items, the paths that name them, and finding an item by its path |
| `index`    | the walk through a menu tree that lists its commands |
| `fuzzy`    | subsequence matching with scores |
| `palette`  | ranking, rows, layout and selection of the command palette |
| `config`   | settings: defaults, ranges, reading and writing |
| `document` | TOML documents, through the `toml` crate |
| `settings` | the controls of the settings window |
| `hotkey`   | registering and releasing the global hotkey |
| `observer` | subscribing to events, and the order in which an observer ends |
| `cli`      | the command line |
| `text`     | strings |

Lengths are whole numbers of 1/65536 of a point, and times are nanoseconds; the program converts.

What the library takes on trust is declared in `document` (the `toml` crate, with serde's
`IgnoredAny`) and `text` (Unicode case and properties of characters, and appending one to a string).
The laws that relate several functions are the public proof functions, `lemma_…`, each next to what
it is about.
