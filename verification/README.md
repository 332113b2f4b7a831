# lumina

The logic of a Windows display controller (per-program display profiles,
global hotkeys, resolution / vibrance / gamma presets), verified with Verus.

- `src/` — the verified library
  - `text.rs`: NUL-terminated UTF-16 buffers to and from strings
  - `hotkey.rs`: parsing shortcut strings such as `Ctrl+Alt+R`
  - `display.rs`: display modes, vibrance percentages, display records
  - `state.rs`: profiles, reading the configuration file's JSON text, the
    application state and the decisions of the reset and the hotkeys;
    displays change only on demand
  - `apply.rs`: which driver calls a display's settings ask for, and the order
    in which a profile's displays are tried and retried
  - `laws.rs`: properties that span several operations
- `tests/` — tests on concrete values
- `app/` — the Tauri application: Win32 and NVIDIA driver calls, reading and
  writing the configuration file, threads, tray and commands
