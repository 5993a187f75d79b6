# keyport

Keyport is a small desktop portal that opens folders, apps, files and websites
from 5-character keys. This crate holds its logic, written in Verus and proved
against its contracts:

- `config`: the key format, adding, deleting and looking up shortcuts, with the
  laws that tie them together (a key added is found again, deleting it undoes
  the add, keys stay valid and unique).
- `launcher`: what to run for a shortcut on each platform, and the `Exec`
  command of a `.desktop` file with its field codes removed.
- `apps`: desktop entries (Linux), the shell AppsFolder listing (Windows), and
  the filter that drops uninstallers, readmes and the like.
- `listing`: the stable sort by lowercase name, the removal of case-insensitive
  duplicates (equal lowercase names), and the per-platform assembly of the installed-apps list.
- `overlay`, `tray`: the window mode, the corner the key box grows from, and
  the tray menu's commands.
- `text`, `paths`: character-level string helpers (Unicode whitespace
  included) and the few std operations the rest relies on (Unicode lowercase,
  `Path` extension and stem), each behind a small trusted wrapper whose
  contract gives the result where Unix and Windows agree on it.

`app/` is the Tauri program around the library: windows, tray, dialogs,
autostart, file and process I/O, JSON persistence, and the floating-point
window geometry.
