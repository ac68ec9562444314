# audiocloud

Verified core logic of the audiocloud services, written in Verus: the decisions of the
domain server's supervisors and actors, the register images and status reports of the
instrument drivers, the transfer jobs of the media service, and the spec, transport and
chunk handling of the REAPER audio engine.

- `src/` is the library. Every executable function there carries a contract that
  Verus proves; the laws that relate several functions are public proof functions
  (`lemma_*`). The few calls into outside crates (`itertools`, `nanoid`, `uuid`) and one std
  call sit behind small trusted functions whose doc comments say what is assumed.
- `tests/` runs the library on concrete values.
- `app/` is a command-line program around the library: it reads driver configurations
  (YAML), NETIO status answers (JSON) and the domain server's options, and holds the
  floating-point parameter scaling that the library does not model.
