# bytevm

A small virtual machine whose values live in one flat byte memory. Each
procedure has numbered slots holding memory addresses; instructions allocate
memory, copy literals into it, and compute on the 64-bit integers, signed
offsets, addresses and booleans stored there.

- `src/byteable.rs`: the byte encodings of the value types and the `Byteable`
  trait, with the law that decoding an encoding gives the value back.
- `src/data.rs`: instructions, literals, compiled procedures and errors,
  with the rendering of an error's message.
- `src/vm.rs`: the machine, a model of its state (`VmModel`), the meaning of
  each instruction as a spec function, and `Vm::run` / `Vm::complete_float`,
  proved to follow that meaning.
- `src/laws.rs`: properties of the machine proved from the model.
- `app/lib.rs`: float arithmetic, which the machine hands out as bytes, and
  running a procedure to its end.
