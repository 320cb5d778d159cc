# tuning_tool

MIDI Tuning Standard (MTS) messages, Scala scale (`.scl`) and keyboard
mapping (`.kbm`) files, and the assignment of keys to scale degrees, written
in Verus with their behaviour stated as contracts and proved.

- `src/` is the verified library: seven-bit MIDI values (`u7`), bulk dump
  replies and note change messages with their checksums, the parsers for
  `.scl` and `.kbm` files and Scala tuning dumps, and the key-to-degree
  layout of a keyboard mapping.
- `tests/` exercises the library on concrete values.
- `app/` is the command-line program around it: argument handling, files,
  MIDI ports, and the floating-point work of turning degrees and intervals
  into frequencies and MTS entries.
