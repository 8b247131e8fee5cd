# localhost_linker

A tray app's core, verified with Verus: it finds the dev servers listening on
this machine and the LAN address a phone would use to reach them, and renders
a QR code for each server a phone can open.

- `src/` — the verified library: IP addresses and their text form (`net`),
  the LAN address choice (`ip`), the socket table to server list logic and
  the scan fingerprint (`scanner`), QR rendering (`qr`), and the tray app's
  decisions (`tray`). `text` holds the character-level helpers.
- `app/` — the Tauri app around it: reading the OS socket table and network
  interfaces, the popup window, tray and plugins, the polling thread, and the
  popup's on-screen placement (floating point).
- `tests/` — tests of the library.
