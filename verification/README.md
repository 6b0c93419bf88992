# ut-compare

A reproducible terminal multiplexer comparison for Uniterm, Herdr and tmux: what resources and time
equivalent multiplexer operations take on one host, with the same terminal geometry and shell
workload. The library's behaviour is stated in contracts and proved with Verus.

## Layout

- `src/` is the verified library.
  - `screen`, `grid`: the model of the visible screen that every byte of a client is replayed into.
  - `oracle`: what a screen must show before a trial counts.
  - `plan`, `workloads`, `panes`, `clients`, `suites`, `runner`: the scenarios. Each is a pair of
    functions of what has happened so far: the next step, and what is written down at the end.
  - `lifecycle`, `adapters`, `storage`, `pty`: starting products in private directories, and what is
    observed of their clients.
  - `process`, `ps`, `sums`: process trees and their cohorts.
  - `privacy`, `aliases`, `catalog`: the output allowlist, and that every metric of a run can be
    published.
  - `model`, `measure`, `scoring`, `standings`, `report`, `document`: reports, rankings and the
    Markdown document.
  - `config`, `cli`, `audit`, `manifest`: configuration, arguments and source trees.
  - `text`, `textmap`, `decimal`, `paths`: the vocabulary that the rest is specified in.
- `app/` is the program: arguments, files, processes, pseudo-terminals, serialization and
  floating-point arithmetic.
- `tests/` runs the library.

## Reading the contracts

Every public function says what it returns in terms of spec functions over sequences, maps and
integers. Public proof functions whose names begin with `law_` state what holds of the library as a
whole, such as that sanitizing a sanitized report changes nothing, that a missing core metric
suppresses the ranking of every contender, or that the echo of an input line never shows the marker
that the line prints.

A measured value is held by its IEEE 754 bits. The library orders and compares such values; it does
no arithmetic on them. What takes arithmetic is handed to it by its caller.
