# raspberry_pos

The logic of a small point-of-sale setup on a Raspberry Pi, as a Verus-verified
library, and the programs around it.

- `src/` (verified):
  - `input_event`: reading the type, code and value of a Linux input event record.
  - `barcode`: the barcode-reader state machine (each key arrives twice; Enter
    twice ends a barcode), with its laws.
  - `utf8_text`: UTF-8 decoding against vstd's UTF-8 specification.
  - `text`: whitespace words, splitting on a character, the first line of a text.
  - `request`: how the web server handles a request: method and target from the
    request line, file name, API calls, resource format, and the resulting route.
  - `response`: status lines, the page served for a missing file, answers as
    status line followed by body, the server-sent-event frame.
  - `debug_mode`: the server's diagnostics switch.
- `app/` (plain Rust): the barcode reader loop on the input device, the web
  server (sockets, files, threads, the process-wide diagnostics switch) and
  its first single-page version.
