# labui

A design-token generator: from the anchor colours in `config.yaml` it builds
thirteen-step neutral scales and themed accent colours, and writes them as SCSS
custom properties (`dist/tokens.scss`) and a JSON token map (`dist/tokens.json`)
for four themes: light, dark, and their increased-contrast variants. A preview
server shows the result.

## Layout

- `src/` — the library, verified with Verus: reading and printing `#RRGGBB`
  codes, the sorted string map behind the selector blocks, the assembly of the
  neutral and accent variables per theme, the SCSS and JSON output, the
  command-line and output decisions, and the preview server's routing,
  query parsing and percent-decoding.
- `app/` — the program around it: the floating-point colour science (sRGB,
  CAM16-UCS, Oklab, APCA contrast, scale curves, tints), reading and writing
  files, the YAML configuration and the HTTP server.
- `tests/` — tests of the library.
