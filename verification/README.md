# NovaType

An offline pinyin input method, written in Verus.

- `src/` is the verified library:
  - `engine/`: input normalization, fuzzy spellings, segmentation of an
    input into syllables, and the lexicon (built-in and learned words);
  - `dict.rs`: TSV and Rime dictionary parsing, TSV writing, loading into
    the engine;
  - `model.rs`: the user model's record formats and the decision to create
    a word from two adjacent commits;
  - `protocol.rs`: message framing and endpoint selection of the daemon;
  - `agent.rs`, `llm.rs`: `//` agent commands and LLM backends;
  - `tsf/`: the platform-independent core of the Windows text service
    (activation and key routing, the composition session, edit planning,
    the document adapter, candidate-window layout and painting, profile
    registration steps).
- `app/` holds the programs around it: the daemon, the command-line client,
  the desktop commands, candidate ranking (floating-point scores), the
  `redb` user-model store, and the HTTP and socket transports.
- `tests/` runs the library on concrete inputs.

Not carried over: the Windows DLL layer of the text service (the exported
DLL entry points and COM class factory, the GDI candidate-window renderer,
the native window, the registry writes and `regsvr32` registration). It is
Windows FFI through raw pointers; its decisions (activation, key routing,
layout, paint commands, the registration plan, the answers of the class
object and instance requests, the unload rule) stand in `src/tsf/`.
