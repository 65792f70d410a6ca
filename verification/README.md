# CW contest trainer

A trainer for running CW (Morse code) contests: the user calls CQ, simulated
stations answer in a pileup, and the user copies and logs their callsigns and
exchanges while the trainer scores the QSOs and keeps statistics.

## Layout

- `src/` is the library, verified with Verus: the QSO state machine
  (`session`, `state`), the pileup of calling stations (`station`), the
  contests and their rules (`contest`), the country table (`cty`), Morse
  encoding (`morse`), settings (`config`), statistics (`stats`), the Markdown session report and its file name
  (`report`), and the text
  and number handling they share (`text`, `num`). Random draws come from the
  `rand` crate (`random`).
- `tests/` runs the library on concrete values.
- `app/` is the program around it: the window (egui), the sound (cpal), the
  settings file (TOML) and the statistics export.

Probabilities are held in millionths, amplitudes in thousandths and times in
milliseconds, so the library works on integers only; the program converts.
