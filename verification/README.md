# ltc-lab

SMPTE LTC timecode as audio: generate it, decode it, look at it.

`src/` is a library that Verus verifies:

- `frame`, `numbering`: the 80-bit frame, the text of a timecode, and how frames are counted, in
  drop-frame too;
- `rate`, `biphase`, `generate`: frame rates as exact fractions, the biphase mark signal on a
  fractional sample clock, and a whole file of it;
- `decoder`, `roundtrip`: the streaming decoder behind the slicer, and the proof that it gives back
  what was encoded;
- `wav`, `analyze`: WAV files, and the summary of one that was decoded;
- `cli`, `tui`, `text`: the command line, the screens of the terminal interface as state machines,
  and the text that they share.

`app/` is the program around it: files, the terminal, audio devices, and whatever works in floating
point (the slicer, the estimate of the bit length, lengths in seconds). Called as `ltc-tui` it runs
the terminal interface. `tests/` holds the tests of the library.
