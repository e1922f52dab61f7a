# red_eval

The natives of a Red evaluator whose logic stands on its own, written in
Verus: every function in `src/` carries a contract, and Verus proves it.

- `value` — the value model (`Value`, its view `ValueView`, datatypes).
- `json`, `json_decode`, `json_laws` — `to-json`, `load-json` (which also
  tells which float literals overflow to infinity), and the proof that
  `load-json` reads back what `to-json` writes of plain data, finite floats
  included.
- `json_props` — the other promises of `to-json`: a value holding an
  unencodable part at any depth is refused, string literals hold no control
  character and read back, compact text is one line, and maps keyed by
  words read back with string keys.
- `html` — the HTML dialect's tag parsing and rendering; `html_laws` proves
  that escaped text unescapes back and that tags left open are closed at
  the end, innermost first.
- `codec` — `checksum`, `compress`/`decompress`, `enbase`/`debase`,
  `encode`/`decode` (base64, crc32fast, sha2, flate2 behind small trusted
  wrappers).
- `math` — integer, char, pair, tuple and money arithmetic, `random`.
- `printer` — `mold` and `form`.
- `map`, `keyed` — `map!`/`hash!` tables, `put`, lookups, `make map!` and
  `make hash!`.
- `bitset` — `bitset!` values and the set operations.
- `convert` — the `to-*` natives, `to` and `make`, and the `error-*`
  field readers.
- `tasks` — the build dialect (`build`, `task`, `run-task`).
- `io` — what `read` and `write` ask for; the I/O itself is the host's.
- `host` — what the file, environment, `wait` and `call`/`shell` natives
  ask the host to do.
- `path` — path steps and writes on data (`block/2`, `object/field: v`,
  `string/2: #"x"`), with the laws that a read after a write gives back
  what was written.

Where a native needs the interpreter (evaluating an expression, loading
source text) or floating point, the library hands the work back to its
caller: as an error naming what is needed, or as a step of a state machine.
`app/` holds the host side of those hand-overs.

`tests/` exercises the library with concrete values.
