# beckon for macOS

A keyboard launcher for macOS. A hotkey summons a panel; what is typed there
lists apps, windows, files, paths, menu items, clipboard history, snippets,
scripts, plugin answers and calculations, and Return acts on the selected row.

`src/` is the decision logic, written in Verus. It holds plain data and pure
functions: what a query lists, what activating a row asks for, where a window
goes, what follows each outcome. Every function states what it returns, and
Verus proves that it does. Public proof functions named `law_..` state what
holds across functions: that the halves of a screen tile it, that the id of a
row leads back to what the row was made for, that a failed activation never
hides the panel, and so on.

| module | what it decides |
| --- | --- |
| `engine`, `startup`, `shell` | queries, activations, the start, the command line |
| `apps`, `files`, `pathnav`, `scriptcmd`, `plugins` | what the disk holds and what runs |
| `menubar`, `switcher`, `winmgmt`, `ax`, `paste` | other apps' menus and windows |
| `system`, `onboarding`, `walkthrough` | system commands, the permission, the tour |
| `panel`, `ui`, `theme`, `hotkey` | the panel, its list and its colors |
| `text`, `paths`, `table`, `order`, `cycle`, `router` | what the others are built from |

A few functions of the standard library are trusted rather than proved: lower
case, lossy and strict UTF-8, quoting for messages, and the splitting of paths.
Each is wrapped once, in `text` or `paths`, with a comment that says what is
taken for granted.

`app/` is the program around the library: the Objective-C runtime, the
Accessibility calls, processes and files. It reads the machine, hands plain
values to the library and carries out what comes back.

`tests/` runs the library on concrete values.
