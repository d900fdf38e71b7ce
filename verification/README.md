# presentation

The verified rules of the field presentation: what the renderer, the mixer and
the offline capture decide, with their contracts proved by Verus.

- `src/` is the library. Each module states its rules as spec functions and
  proves the executable functions against them; laws that relate several
  calls are public proof functions.
  - `menu_layout`: menu arithmetic (scrolling, blinking, panels, counters,
    portraits, meters) and the word wrapping of descriptions.
  - `audit`: the requests a field frame expects and those reported unapplied.
  - `portrait`: skit portrait canvases rebuilt from their block maps.
  - `mixer`, `voice`, `audio_assets`: audio commands, spoken lines and the
    digest, budget and decoding of cooked audio.
  - `showcase`, `sequence`, `explorer`: offline capture, render sequences and
    the exploration of event choice branches.
  - `channels`, `screen`, `effects`: bone channel presence in cross-fades,
    dialogue box placement, and effect texture layers.
- `tests/` runs the library on concrete values.
- `app/` holds what stays outside the proofs: settings files, audio files on
  disk, and the floating-point side of drawing.
