# EV3 image IR

A verified library for the intermediate representation of EV3 bytecode
images (`.rbf`): data types and their sizes, instruction parameters and the
readings of their constants, instructions, blocks, objects and images,
double-ended traversal of an object's instructions (read-only and
modifying), and the textual form of every value.

- `src/data_type.rs`: `DataType`, `ParamType`, sizes, alignment, names.
- `src/param.rs`: `ParamValue`, `Parameter`, constant readings, text.
- `src/program.rs`: `Opcode`, `Instruction`, `Block`, `Object`, `Image`, and
  the program order of an object's instructions.
- `src/traversal.rs`: `ObjectInstrIter`, `ObjectInstrIterMut`.
- `src/render.rs`: text of instructions, blocks, objects and images.
- `src/text.rs`: `TextOut` (text made of strings and float bit patterns),
  decimal numbers, padding, UTF-8 decoding.
- `app/`: turns rendered text into characters (floats in decimal) and gives
  each value a `Display`.
