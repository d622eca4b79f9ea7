# record_tui

`record` captures system audio to MP3 and the screen to MP4 from a terminal.

- `src/` is the library: names and sessions, part boundaries, capture and packet
  rules, sample formats, resampling positions, clip selection and trimming, the
  state of both terminal interfaces, and every text they show. All of it is
  verified with Verus.
- `tests/` runs the library on concrete values.
- `app/` is the program around the library: arguments, files, threads, terminal
  drawing, floating-point mixing and the Windows devices and encoders.

The ends of a message channel (`src/channel.rs`) and the file system
(`src/disk.rs`) remember every call that is made through them. The contracts
speak of that memory, so they also say what a function leaves alone.

Floating-point values that decide something exactly (durations, positions,
fractions) are computed in `src/binary64.rs` as integers with a proved rounding.
The capture backends exist for Windows; on other platforms the program reports
that capture is not available.
