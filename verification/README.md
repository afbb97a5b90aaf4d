# stepshot

A step recorder that lives in the system tray (KDE Plasma / Wayland): on every
mouse click it photographs the active window, marks the click, names the
clicked UI element via accessibility, and writes an HTML/Markdown report.

## Layout

- `src/` — the verified library (Verus). Everything the program decides or
  computes: step descriptions in each supported language, the HTML and Markdown
  reports (with base64 embedding), decoding the compositor's raw screenshot,
  the click marker, parsing the compositor's cursor report, the accessibility
  query's decisions, the tray menu, export text (wrapping, Latin-1
  sanitizing), the recording state machine (`session::Recorder`), and the
  Windows backend's popup menu and window-image conversion (`win`). All
  user-facing text comes from the active language's string table.
  Contracts are stated over `Seq`/`int` models; the laws the program relies
  on are public proof functions named `law_*`.
- `app/` — the program around it: `main` and its event loop, D-Bus (KWin,
  AT-SPI, notifications), evdev input, the tray (ksni), PNG/PDF/DOCX
  encoding, files, and the floating-point parts (icon drawing, HiDPI marker
  position, page layout).
- `tests/` — tests of the library on concrete values.
