# Fog Cutter virtual machines

Five generations of the Fog Cutter bytecode machine, written in Verus with their
behaviour stated in contracts and proved.

- `le_bytes`: little-endian reads and stores over byte sequences, shared by the
  machines, with the round-trip law.
- `vm_v1`: a 256-byte machine with six byte registers that runs move, add and
  subtract instructions fed byte by byte.
- `vm_v2`: a register machine whose memory holds general memory, a call stack and the
  program; floating-point instructions stop the run and hand their operands to the
  caller, which completes them (`finish_float_op`) and resumes.
- `vm_v3`: a register machine with word opcodes and packed operand descriptions.
- `vm_v4`: an object machine with a type list, reference-counted objects, a stack of
  object indices, functions (entered with `Cal`, left with `Ret` or `RetVal`, which
  hands values back to the caller) and a bytecode interpreter; types and programs
  serialise to bytes. `vm_v4::vm_core` is a smaller object store of the same kind that reports
  failures as `false` or `None`.
- `vm_v5`: the pass-by kinds of the next object model.

`app/` holds the program entry point, the floating-point arithmetic of the second
machine and the fifth generation's value type, whose variants hold floats.
