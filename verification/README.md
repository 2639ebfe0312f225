# mummu

The decisions of a local language-model engine, verified with Verus: what is
read from which file at which offset, which precision a weight is stored at,
which expert serves which token, where a layer's weights live, what a cache
keeps, and which operations a forward pass is made of.

- `src/` is the library. Its functions are verified against their contracts,
  but for three that call out of it (`prof`'s flame-graph renderer and UTF-8
  reader, and `text`'s quoting) and the one on `String::push`: their contracts
  are believed, and their doc comments say what is claimed.
  Values of tensors are carried by their bit patterns: the library moves, lays
  out and selects them and does no arithmetic on them.
- `app/` is the engine around the library: tensors, files, clocks, threads and
  the environment.
- `tests/` runs the library on concrete values.

| module | what it decides |
|---|---|
| `gguf`, `registry`, `quant` | headers, the model catalogue, the precision ladder |
| `pack` | the levels of a pack, its layout, reading and slicing it |
| `overlay` | which layers stay on a device, and the ring that streams the rest |
| `progress`, `prof` | the state of a load, the profile of a run |
| `nn` | attention, rotary tables, convolutions, mixtures, packed products |
| `models::qwen4exp` | configuration, trunk, hashed embeddings, experts, passes |

Laws that span several functions are public proof functions beside them.
