# lyra

The domain logic of a desktop music player, written in Verus with its
contracts proved.

- `src/` — the verified library:
  - `repeat`, `queue`: repeat modes, the play queue with seeded shuffle, and
    its laws (every item played once per cycle, `prev` undoes `next`, …).
  - `command`: the interactive shell's command language.
  - `lyrics`, `decimal`: the LRC parser and its stable, exact time ordering
    (whole seconds of any size, compared as decimal numbers).
  - `model`, `library`: library records, tag mapping, scan planning and
    counting.
  - `artcache`: content-addressed thumbnail names and thumbnail encoding.
  - `engine`, `decode`: the transport state machine, the decode loop's
    decisions, crossfade bookkeeping, channel adaptation and the output
    callback's accounting.
  - `ui`, `cli`, `paths`: the window's and the shell's decisions, and where
    files live.
- `app/` — the program around it: the shell, SQLite, tag and audio I/O,
  the audio device and the floating-point DSP.
- `tests/` — tests of the library on concrete values.
