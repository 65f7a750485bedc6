# shiny_portal

A backend for the desktop portal of the Shiny shell: it serves screen cast and screenshot requests
on the session bus.

The logic is a library that Verus verifies. The program around it talks to the compositor, the
media server, the shell and the bus.

## Layout

- `src/` is the library. It works on plain values, and contracts say what its functions do.
  - `damage`, `geometry`: which parts of a frame have to be captured again.
  - `formats`, `bytes`, `image`: pixel formats, and reading captured frames.
  - `capture`, `buffers`: what a capture session offers, and the buffers that are made for it.
  - `pod`, `stream_formats`, `stream`, `cast`: the negotiation and the buffers of a screen cast.
  - `screenshot`, `uri`: cutting out a region, and the file that it is saved in.
  - `shell`, `text`: the dialogue with the shell.
  - `portal`, `screen_cast`, `screenshot_portal`: sessions, restore tokens and answers.
  - `config`: settings and the command line.
- `app/` is the program: sockets, devices, processes and bus objects.
- `tests/` are tests of the library.

Functions whose names start with `law_` state what holds of the library as a whole.
