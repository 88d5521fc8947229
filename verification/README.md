# clock

A configurable clock for the terminal, with its logic verified by Verus.

- `src/` is the library. Each function carries a `requires`/`ensures`
  contract that Verus proves, and the properties that span several
  functions are stated as public proof functions (`lemma_*`):
  - `config`, `cli`: the settings, command-line overrides and `config set`;
  - `session`: what each key does, the face picker, and when the clock wakes;
  - `color`, `text`, `time`: color names, string helpers, the time of a frame;
  - `render`, `braille`, `seg7`, `vector`: styled lines, the braille canvas,
    seven-segment digits, and packing of sub-pixels into quadrant blocks;
  - `faces::*`: the text, layout and compositing of every face;
  - `calendar`: the reminder that flashes a minute before an event.
- `app/` is the program around it: the terminal loop, reading and writing
  the config file, the network request for calendar events, and the
  floating-point geometry (vector font, circles, hands, color gradients).
- `tests/` runs the library on concrete values.
